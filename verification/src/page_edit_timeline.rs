//! What the operations of a page edit history do to the files on disk, when
//! every action succeeds, and the laws that follow.
use vstd::prelude::*;

use crate::page_edit_history::{
    lemma_advance_wf, lemma_pop_wf, max_depth, ActionModel, HistoryModel, Operation, Pending,
};

verus! {

/// The files that a history works on.
#[verifier::ext_equal]
pub struct Disk {
    /// The bytes of the document.
    pub document: Seq<u8>,
    /// The bytes of the file beside it.
    pub staged: Seq<u8>,
    /// The bytes of each snapshot, by number.
    pub snapshots: Map<u64, Seq<u8>>,
}

impl Disk {
    /// The files after an action was performed.
    pub open spec fn performed(self, action: ActionModel) -> Disk {
        match action {
            ActionModel::CreateDirectory => self,
            ActionModel::CopyDocument { snapshot } => Disk {
                snapshots: self.snapshots.insert(snapshot, self.document),
                ..self
            },
            ActionModel::Stage { operation, snapshot } => Disk {
                staged: self.snapshots[snapshot],
                ..self
            },
            ActionModel::Install { operation } => Disk { document: self.staged, ..self },
            ActionModel::Finish { remove } => Disk {
                snapshots: self.snapshots.remove_keys(remove.to_set()),
                ..self
            },
            ActionModel::Fail { error } => self,
        }
    }

    /// The files after the document was edited.
    pub open spec fn edited(self, document: Seq<u8>) -> Disk {
        Disk { document, ..self }
    }
}

/// The history and the files at the end of an operation that stands before
/// `action`, when each action succeeds; at most `steps` actions follow.
pub open spec fn run(h: HistoryModel, action: ActionModel, disk: Disk, steps: nat) -> (
    HistoryModel,
    Disk,
)
    decreases steps,
{
    let now = disk.performed(action);
    if steps == 0 || action is Finish || action is Fail {
        (h, now)
    } else {
        let (next, then_do) = h.advanced();
        run(next, then_do, now, (steps - 1) as nat)
    }
}

/// The history and the files after a checkpoint.
pub open spec fn after_checkpoint(h: HistoryModel, disk: Disk) -> (HistoryModel, Disk) {
    let (begun, action) = h.checkpoint_begun();
    run(begun, action, disk, 4)
}

/// The history and the files after an undo.
pub open spec fn after_undo(h: HistoryModel, disk: Disk) -> (HistoryModel, Disk) {
    let (begun, action) = h.undo_begun();
    run(begun, action, disk, 4)
}

/// The history and the files after a redo.
pub open spec fn after_redo(h: HistoryModel, disk: Disk) -> (HistoryModel, Disk) {
    let (begun, action) = h.redo_begun();
    run(begun, action, disk, 4)
}

/// The history and the files after both stacks were dropped.
pub open spec fn after_clear(h: HistoryModel, disk: Disk) -> (HistoryModel, Disk) {
    (h.cleared(), disk.performed(ActionModel::Finish { remove: h.undo + h.redo }))
}

/// A document with its past and its future.
#[verifier::ext_equal]
pub struct Timeline {
    /// Earlier states, the most recent last.
    pub past: Seq<Seq<u8>>,
    pub present: Seq<u8>,
    /// Later states that were undone, the nearest last.
    pub future: Seq<Seq<u8>>,
}

/// The states of the document that a history can reach.
pub open spec fn timeline(h: HistoryModel, disk: Disk) -> Timeline {
    Timeline {
        past: h.undo.map_values(|id: u64| disk.snapshots[id]),
        present: disk.document,
        future: h.redo.map_values(|id: u64| disk.snapshots[id]),
    }
}

impl Timeline {
    /// The most recent past state becomes the present, and the present the
    /// nearest future.
    pub open spec fn back(self) -> Timeline {
        Timeline {
            past: self.past.drop_last(),
            present: self.past.last(),
            future: self.future.push(self.present),
        }
    }

    /// The nearest future state becomes the present, and the present the most
    /// recent past.
    pub open spec fn forward(self) -> Timeline {
        Timeline {
            past: self.past.push(self.present),
            present: self.future.last(),
            future: self.future.drop_last(),
        }
    }
}

/// Whether the snapshots on the stacks are on disk.
pub open spec fn on_disk(h: HistoryModel, disk: Disk) -> bool {
    (h.undo + h.redo).to_set().subset_of(disk.snapshots.dom())
}

/// Whether no operation is in progress and the snapshots on the stacks are on
/// disk.
pub open spec fn at_rest(h: HistoryModel, disk: Disk) -> bool {
    &&& h.wf()
    &&& h.pending is Nothing
    &&& on_disk(h, disk)
}

/// The snapshots on disk that are on no stack: what operations that were broken
/// off have left behind.
pub open spec fn leftover(h: HistoryModel, disk: Disk) -> Set<u64> {
    disk.snapshots.dom().difference((h.undo + h.redo).to_set())
}

proof fn lemma_members(h: HistoryModel)
    requires
        h.wf(),
    ensures
        forall|id: u64| #[trigger]
            (h.undo + h.redo).to_set().contains(id) <==> h.undo.contains(id) || h.redo.contains(id),
        forall|i: int|
            0 <= i < h.undo.len() ==> #[trigger] h.undo[i] < h.next_id && !h.redo.contains(
                h.undo[i],
            ),
        forall|i: int|
            0 <= i < h.redo.len() ==> #[trigger] h.redo[i] < h.next_id && !h.undo.contains(
                h.redo[i],
            ),
        forall|i: int, j: int| 0 <= i < j < h.undo.len() ==> h.undo[i] != h.undo[j],
        forall|i: int, j: int| 0 <= i < j < h.redo.len() ==> h.redo[i] != h.redo[j],
{
    let ids = h.undo + h.redo;
    assert forall|id: u64| #[trigger] ids.to_set().contains(id) <==> h.undo.contains(id)
        || h.redo.contains(id) by {
        if h.undo.contains(id) {
            assert(ids[h.undo.index_of(id)] == id);
        }
        if h.redo.contains(id) {
            assert(ids[h.undo.len() + h.redo.index_of(id)] == id);
        }
        if ids.contains(id) {
            let i = ids.index_of(id);
            if i < h.undo.len() {
                assert(h.undo[i] == id);
            } else {
                assert(h.redo[i - h.undo.len()] == id);
            }
        }
    }
    assert forall|i: int| 0 <= i < h.undo.len() implies #[trigger] h.undo[i] < h.next_id
        && !h.redo.contains(h.undo[i]) by {
        assert(ids[i] == h.undo[i]);
        if h.redo.contains(h.undo[i]) {
            assert(ids[h.undo.len() + h.redo.index_of(h.undo[i])] == h.undo[i]);
        }
    }
    assert forall|i: int| 0 <= i < h.redo.len() implies #[trigger] h.redo[i] < h.next_id
        && !h.undo.contains(h.redo[i]) by {
        assert(ids[h.undo.len() + i] == h.redo[i]);
        if h.undo.contains(h.redo[i]) {
            assert(ids[h.undo.index_of(h.redo[i])] == h.redo[i]);
        }
    }
    assert forall|i: int, j: int| 0 <= i < j < h.undo.len() implies h.undo[i] != h.undo[j] by {
        assert(ids[i] == h.undo[i]);
        assert(ids[j] == h.undo[j]);
    }
    assert forall|i: int, j: int| 0 <= i < j < h.redo.len() implies h.redo[i] != h.redo[j] by {
        assert(ids[h.undo.len() + i] == h.redo[i]);
        assert(ids[h.undo.len() + j] == h.redo[j]);
    }
}

/// The history after a snapshot was taken off the undo stack and the new one
/// put on the redo stack.
spec fn undone(h: HistoryModel) -> HistoryModel {
    HistoryModel {
        undo: h.undo.drop_last(),
        redo: h.redo.push(h.next_id),
        next_id: (h.next_id + 1) as u64,
        has_directory: true,
        pending: Pending::Nothing,
    }
}

/// The history after a snapshot was taken off the redo stack and the new one
/// put on the undo stack.
spec fn redone(h: HistoryModel) -> HistoryModel {
    HistoryModel {
        undo: h.undo.push(h.next_id),
        redo: h.redo.drop_last(),
        next_id: (h.next_id + 1) as u64,
        has_directory: true,
        pending: Pending::Nothing,
    }
}

/// The files after `snapshot` was put back and the document became the snapshot
/// `fresh`.
spec fn restored(disk: Disk, snapshot: u64, fresh: u64) -> Disk {
    let kept = disk.snapshots.insert(fresh, disk.document);
    Disk {
        document: kept[snapshot],
        staged: kept[snapshot],
        snapshots: kept.remove_keys(seq![snapshot].to_set()),
    }
}

proof fn lemma_one(s: u64)
    ensures
        seq![s].to_set() == set![s],
{
    assert(seq![s][0] == s);
    assert(seq![s].to_set() =~= set![s]);
}

proof fn lemma_undo_runs(h: HistoryModel, disk: Disk)
    requires
        h.wf(),
        h.pending is Nothing,
        h.undo.len() > 0,
        h.next_id < u64::MAX,
    ensures
        after_undo(h, disk) == (undone(h), restored(disk, h.undo.last(), h.next_id)),
        undone(h).wf(),
{
    reveal_with_fuel(run, 6);
    lemma_pop_wf(h);
    let begun = h.undo_begun().0;
    lemma_advance_wf(begun);
    let s1 = begun.advanced().0;
    lemma_advance_wf(s1);
    let s2 = s1.advanced().0;
    lemma_advance_wf(s2);
    let s3 = s2.advanced().0;
    lemma_advance_wf(s3);
}

proof fn lemma_redo_runs(h: HistoryModel, disk: Disk)
    requires
        h.wf(),
        h.pending is Nothing,
        h.redo.len() > 0,
        h.next_id < u64::MAX,
    ensures
        after_redo(h, disk) == (redone(h), restored(disk, h.redo.last(), h.next_id)),
        redone(h).wf(),
{
    reveal_with_fuel(run, 6);
    lemma_pop_wf(h);
    let begun = h.redo_begun().0;
    lemma_advance_wf(begun);
    let s1 = begun.advanced().0;
    lemma_advance_wf(s1);
    let s2 = s1.advanced().0;
    lemma_advance_wf(s2);
    let s3 = s2.advanced().0;
    lemma_advance_wf(s3);
}

proof fn lemma_checkpoint_runs(h: HistoryModel, disk: Disk)
    requires
        h.wf(),
        h.pending is Nothing,
        h.next_id < u64::MAX,
    ensures
        ({
            let ready = HistoryModel {
                next_id: (h.next_id + 1) as u64,
                has_directory: true,
                pending: Pending::Copy {
                    operation: Operation::Checkpoint,
                    snapshot: 0,
                    fresh: h.next_id,
                },
                ..h
            };
            let (ended, last) = ready.checkpoint_ended(h.next_id);
            let copied = Disk {
                snapshots: disk.snapshots.insert(h.next_id, disk.document),
                ..disk
            };
            after_checkpoint(h, disk) == (ended, copied.performed(last))
        }),
        after_checkpoint(h, disk).0.wf(),
{
    reveal_with_fuel(run, 6);
    let begun = h.checkpoint_begun().0;
    assert(begun.wf());
    lemma_advance_wf(begun);
    let s1 = begun.advanced().0;
    lemma_advance_wf(s1);
}

/// An undo makes the most recent past state the present and the present the
/// nearest future, and leaves no further snapshot behind.
pub proof fn undo_moves_back(h: HistoryModel, disk: Disk)
    requires
        at_rest(h, disk),
        h.undo.len() > 0,
        h.next_id < u64::MAX,
    ensures
        ({
            let before = timeline(h, disk);
            let (h2, disk2) = after_undo(h, disk);
            &&& timeline(h2, disk2) == before.back()
            &&& at_rest(h2, disk2)
            &&& leftover(h2, disk2).subset_of(leftover(h, disk))
        }),
{
    lemma_undo_runs(h, disk);
    lemma_members(h);
    let (h2, disk2) = after_undo(h, disk);
    lemma_members(h2);
    let before = timeline(h, disk);
    let after = timeline(h2, disk2);
    let s = h.undo.last();
    lemma_one(s);
    assert(h.undo[h.undo.len() - 1] == s);
    assert(!h2.undo.contains(s) && !h2.redo.contains(s)) by {
        if h2.undo.contains(s) {
            assert(h.undo[h2.undo.index_of(s)] == s);
        }
        if h2.redo.contains(s) {
            let i = h2.redo.index_of(s);
            if i < h.redo.len() {
                assert(h.redo[i] == s);
            }
        }
    }
    assert(after.past =~= before.past.drop_last());
    assert(after.future =~= before.future.push(before.present));
    assert forall|id: u64|
        ((h2.undo + h2.redo).to_set().contains(id) ==> #[trigger] disk2.snapshots.dom().contains(
            id,
        )) && (leftover(h2, disk2).contains(id) ==> leftover(h, disk).contains(id)) by {
        if h.undo.contains(id) && id != s {
            let i = h.undo.index_of(id);
            assert(h2.undo[i] == id);
        }
        if h2.undo.contains(id) {
            assert(h.undo[h2.undo.index_of(id)] == id);
        }
        if h.redo.contains(id) {
            assert(h2.redo[h.redo.index_of(id)] == id);
        }
        if h2.redo.contains(id) {
            let i = h2.redo.index_of(id);
            if i < h.redo.len() {
                assert(h.redo[i] == id);
            }
        }
        assert(h2.redo[h.redo.len() as int] == h.next_id);
        assert((h.undo + h.redo).to_set().contains(id) ==> disk.snapshots.dom().contains(id));
    }
}

/// A redo makes the nearest future state the present and the present the most
/// recent past, and leaves no further snapshot behind.
pub proof fn redo_moves_forward(h: HistoryModel, disk: Disk)
    requires
        at_rest(h, disk),
        h.redo.len() > 0,
        h.next_id < u64::MAX,
    ensures
        ({
            let before = timeline(h, disk);
            let (h2, disk2) = after_redo(h, disk);
            &&& timeline(h2, disk2) == before.forward()
            &&& at_rest(h2, disk2)
            &&& leftover(h2, disk2).subset_of(leftover(h, disk))
        }),
{
    lemma_redo_runs(h, disk);
    lemma_members(h);
    let (h2, disk2) = after_redo(h, disk);
    lemma_members(h2);
    let before = timeline(h, disk);
    let after = timeline(h2, disk2);
    let s = h.redo.last();
    lemma_one(s);
    assert(h.redo[h.redo.len() - 1] == s);
    assert(!h2.undo.contains(s) && !h2.redo.contains(s)) by {
        if h2.redo.contains(s) {
            assert(h.redo[h2.redo.index_of(s)] == s);
        }
        if h2.undo.contains(s) {
            let i = h2.undo.index_of(s);
            if i < h.undo.len() {
                assert(h.undo[i] == s);
            }
        }
    }
    assert(after.future =~= before.future.drop_last());
    assert(after.past =~= before.past.push(before.present));
    assert forall|id: u64|
        ((h2.undo + h2.redo).to_set().contains(id) ==> #[trigger] disk2.snapshots.dom().contains(
            id,
        )) && (leftover(h2, disk2).contains(id) ==> leftover(h, disk).contains(id)) by {
        if h.redo.contains(id) && id != s {
            let i = h.redo.index_of(id);
            assert(h2.redo[i] == id);
        }
        if h2.redo.contains(id) {
            assert(h.redo[h2.redo.index_of(id)] == id);
        }
        if h.undo.contains(id) {
            assert(h2.undo[h.undo.index_of(id)] == id);
        }
        if h2.undo.contains(id) {
            let i = h2.undo.index_of(id);
            if i < h.undo.len() {
                assert(h.undo[i] == id);
            }
        }
        assert(h2.undo[h.undo.len() as int] == h.next_id);
        assert((h.undo + h.redo).to_set().contains(id) ==> disk.snapshots.dom().contains(id));
    }
}

/// The most recent states of `past`, as many as a history keeps.
pub open spec fn kept_past(past: Seq<Seq<u8>>) -> Seq<Seq<u8>> {
    if past.len() > max_depth() {
        past.skip(past.len() - max_depth())
    } else {
        past
    }
}

/// A checkpoint makes the present the most recent past state too, keeps the
/// most recent of these, drops the future, and leaves no further snapshot behind.
pub proof fn checkpoint_records(h: HistoryModel, disk: Disk)
    requires
        at_rest(h, disk),
        h.next_id < u64::MAX,
    ensures
        ({
            let before = timeline(h, disk);
            let (h2, disk2) = after_checkpoint(h, disk);
            &&& timeline(h2, disk2) == (Timeline {
                past: kept_past(before.past.push(before.present)),
                present: before.present,
                future: Seq::empty(),
            })
            &&& at_rest(h2, disk2)
            &&& leftover(h2, disk2).subset_of(leftover(h, disk))
        }),
{
    lemma_checkpoint_runs(h, disk);
    lemma_members(h);
    let (h2, disk2) = after_checkpoint(h, disk);
    lemma_members(h2);
    let before = timeline(h, disk);
    let after = timeline(h2, disk2);
    let grown = h.undo.push(h.next_id);
    let dropped = if grown.len() > max_depth() {
        h.redo.push(grown[0])
    } else {
        h.redo
    };
    let from: int = if grown.len() > max_depth() {
        1
    } else {
        0
    };
    assert(h2.undo =~= grown.skip(from));
    assert(disk2.snapshots =~= disk.snapshots.insert(h.next_id, disk.document).remove_keys(
        dropped.to_set(),
    ));
    assert forall|id: u64| #[trigger] dropped.contains(id) <==> h.redo.contains(id) || (from == 1
        && id == grown[0]) by {
        if h.redo.contains(id) {
            assert(dropped[h.redo.index_of(id)] == id);
        }
        if from == 1 && id == grown[0] {
            assert(dropped[h.redo.len() as int] == id);
        }
        if dropped.contains(id) {
            let i = dropped.index_of(id);
            if i < h.redo.len() {
                assert(h.redo[i] == id);
            }
        }
    }
    assert forall|i: int| 0 <= i < h2.undo.len() implies !dropped.contains(
        #[trigger] h2.undo[i],
    ) by {
        let id = h2.undo[i];
        assert(grown[i + from] == id);
        if i + from < h.undo.len() {
            assert(h.undo[i + from] == id);
            if from == 1 {
                assert(h.undo[0] != h.undo[i + from]);
            }
        } else {
            assert(id == h.next_id);
            if h.redo.contains(id) {
                assert(h.redo[h.redo.index_of(id)] < h.next_id);
            }
            if from == 1 {
                assert(h.undo[0] < h.next_id);
            }
        }
    }
    assert(after.past =~= kept_past(before.past.push(before.present)));
    assert(after.future =~= Seq::<Seq<u8>>::empty());
    assert forall|id: u64|
        ((h2.undo + h2.redo).to_set().contains(id) ==> #[trigger] disk2.snapshots.dom().contains(
            id,
        )) && (leftover(h2, disk2).contains(id) ==> leftover(h, disk).contains(id)) by {
        if h2.undo.contains(id) {
            let i = h2.undo.index_of(id);
            assert(!dropped.contains(h2.undo[i]));
            if i + from < h.undo.len() {
                assert(h.undo[i + from] == id);
            }
        }
        if h.undo.contains(id) && !dropped.contains(id) {
            let i = h.undo.index_of(id);
            assert(i >= from);
            assert(h2.undo[i - from] == id);
        }
        assert(h2.undo[h.undo.len() - from] == h.next_id);
        assert((h.undo + h.redo).to_set().contains(id) ==> disk.snapshots.dom().contains(id));
    }
}

/// Dropping both stacks leaves the document as it is, and of the snapshots only
/// those on disk that were on no stack.
pub proof fn clear_forgets(h: HistoryModel, disk: Disk)
    requires
        at_rest(h, disk),
    ensures
        ({
            let (h2, disk2) = after_clear(h, disk);
            &&& timeline(h2, disk2) == (Timeline {
                past: Seq::empty(),
                present: disk.document,
                future: Seq::empty(),
            })
            &&& disk2.snapshots.dom() == leftover(h, disk)
            &&& at_rest(h2, disk2)
        }),
{
    let (h2, disk2) = after_clear(h, disk);
    assert(disk2.snapshots.dom() =~= leftover(h, disk));
    assert(timeline(h2, disk2).past =~= Seq::<Seq<u8>>::empty());
    assert(timeline(h2, disk2).future =~= Seq::<Seq<u8>>::empty());
    assert((h2.undo + h2.redo).to_set() =~= Set::<u64>::empty());
}

/// Whatever an edit does to the document after a checkpoint, an undo puts back
/// the bytes of before, and a redo after that puts back the edit.
pub proof fn checkpoint_then_undo_restores(h: HistoryModel, disk: Disk, edit: Seq<u8>)
    requires
        at_rest(h, disk),
        h.next_id < u64::MAX - 2,
    ensures
        ({
            let (h1, disk1) = after_checkpoint(h, disk);
            let (h2, disk2) = after_undo(h1, disk1.edited(edit));
            let (h3, disk3) = after_redo(h2, disk2);
            &&& h1.undo.len() > 0
            &&& h1.redo.len() == 0
            &&& disk2.document == disk.document
            &&& h2.redo.len() > 0
            &&& disk3.document == edit
        }),
{
    lemma_checkpoint_runs(h, disk);
    checkpoint_records(h, disk);
    let (h1, disk1) = after_checkpoint(h, disk);
    let edited = disk1.edited(edit);
    let before = timeline(h, disk);
    assert(timeline(h1, edited).past =~= timeline(h1, disk1).past);
    assert(timeline(h1, edited).past.last() == before.present);
    assert(at_rest(h1, edited));
    undo_moves_back(h1, edited);
    lemma_undo_runs(h1, edited);
    let (h2, disk2) = after_undo(h1, edited);
    redo_moves_forward(h2, disk2);
    assert(timeline(h2, disk2).future.last() == edit);
}

/// A redo right after an undo gives back the document, its past and its future
/// as they were.
pub proof fn redo_inverts_undo(h: HistoryModel, disk: Disk)
    requires
        at_rest(h, disk),
        h.undo.len() > 0,
        h.next_id < u64::MAX - 1,
    ensures
        ({
            let (h1, disk1) = after_undo(h, disk);
            let (h2, disk2) = after_redo(h1, disk1);
            timeline(h2, disk2) == timeline(h, disk) && at_rest(h2, disk2) && leftover(
                h2,
                disk2,
            ).subset_of(leftover(h, disk))
        }),
{
    undo_moves_back(h, disk);
    lemma_undo_runs(h, disk);
    let (h1, disk1) = after_undo(h, disk);
    redo_moves_forward(h1, disk1);
    let before = timeline(h, disk);
    let (h2, disk2) = after_redo(h1, disk1);
    assert(timeline(h2, disk2) =~= before);
}

/// An undo right after a redo gives back the document, its past and its future
/// as they were.
pub proof fn undo_inverts_redo(h: HistoryModel, disk: Disk)
    requires
        at_rest(h, disk),
        h.redo.len() > 0,
        h.next_id < u64::MAX - 1,
    ensures
        ({
            let (h1, disk1) = after_redo(h, disk);
            let (h2, disk2) = after_undo(h1, disk1);
            timeline(h2, disk2) == timeline(h, disk) && at_rest(h2, disk2) && leftover(
                h2,
                disk2,
            ).subset_of(leftover(h, disk))
        }),
{
    redo_moves_forward(h, disk);
    lemma_redo_runs(h, disk);
    let (h1, disk1) = after_redo(h, disk);
    undo_moves_back(h1, disk1);
    let before = timeline(h, disk);
    let (h2, disk2) = after_undo(h1, disk1);
    assert(timeline(h2, disk2) =~= before);
}

/// The history and the files after `k` undos.
pub open spec fn after_undos(h: HistoryModel, disk: Disk, k: nat) -> (HistoryModel, Disk)
    decreases k,
{
    if k == 0 {
        (h, disk)
    } else {
        let (h1, disk1) = after_undos(h, disk, (k - 1) as nat);
        after_undo(h1, disk1)
    }
}

/// The history and the files after `k` redos.
pub open spec fn after_redos(h: HistoryModel, disk: Disk, k: nat) -> (HistoryModel, Disk)
    decreases k,
{
    if k == 0 {
        (h, disk)
    } else {
        let (h1, disk1) = after_redos(h, disk, (k - 1) as nat);
        after_redo(h1, disk1)
    }
}

/// Several undos lead to the state that stands so far back in the past, and
/// leave what was before that as the past.
pub proof fn undos_reach_every_past_state(h: HistoryModel, disk: Disk, k: nat)
    requires
        at_rest(h, disk),
        k <= h.undo.len(),
        h.next_id <= u64::MAX - k,
    ensures
        ({
            let before = timeline(h, disk);
            let (h2, disk2) = after_undos(h, disk, k);
            let after = timeline(h2, disk2);
            &&& at_rest(h2, disk2)
            &&& h2.next_id == h.next_id + k
            &&& after.past == before.past.take(before.past.len() - k)
            &&& after.future.len() == before.future.len() + k
            &&& k > 0 ==> after.present == before.past[before.past.len() - k]
        }),
    decreases k,
{
    let before = timeline(h, disk);
    if k == 0 {
        assert(before.past.take(before.past.len() as int) =~= before.past);
    } else {
        undos_reach_every_past_state(h, disk, (k - 1) as nat);
        let (h1, disk1) = after_undos(h, disk, (k - 1) as nat);
        assert(timeline(h1, disk1).past.len() == h1.undo.len());
        undo_moves_back(h1, disk1);
        lemma_undo_runs(h1, disk1);
        assert(before.past.take(before.past.len() - k + 1).drop_last() =~= before.past.take(
            before.past.len() - k,
        ));
    }
}

/// As many redos as undos give back the document, its past and its future as
/// they were.
pub proof fn redos_invert_undos(h: HistoryModel, disk: Disk, k: nat)
    requires
        at_rest(h, disk),
        k <= h.undo.len(),
        h.next_id <= u64::MAX - 2 * k,
    ensures
        ({
            let (h1, disk1) = after_undos(h, disk, k);
            let (h2, disk2) = after_redos(h1, disk1, k);
            timeline(h2, disk2) == timeline(h, disk) && at_rest(h2, disk2)
        }),
{
    undos_reach_every_past_state(h, disk, k);
    lemma_redos_lead_back(h, disk, k, k);
}

proof fn lemma_redos_lead_back(h: HistoryModel, disk: Disk, k: nat, j: nat)
    requires
        at_rest(h, disk),
        j <= k <= h.undo.len(),
        h.next_id <= u64::MAX - 2 * k,
    ensures
        ({
            let (h1, disk1) = after_undos(h, disk, k);
            let (h2, disk2) = after_redos(h1, disk1, j);
            let (h3, disk3) = after_undos(h, disk, (k - j) as nat);
            &&& timeline(h2, disk2) == timeline(h3, disk3)
            &&& at_rest(h2, disk2)
            &&& h2.next_id == h.next_id + k + j
        }),
    decreases j,
{
    undos_reach_every_past_state(h, disk, k);
    if j > 0 {
        lemma_redos_lead_back(h, disk, k, (j - 1) as nat);
        let (h1, disk1) = after_undos(h, disk, k);
        let (h2, disk2) = after_redos(h1, disk1, (j - 1) as nat);
        undos_reach_every_past_state(h, disk, (k - j) as nat);
        let (h3, disk3) = after_undos(h, disk, (k - j) as nat);
        assert(timeline(h3, disk3).past.len() == h3.undo.len());
        undo_moves_back(h3, disk3);
        assert(timeline(h2, disk2) == timeline(h3, disk3).back());
        assert(timeline(h2, disk2).future.len() == h2.redo.len());
        redo_moves_forward(h2, disk2);
        lemma_redo_runs(h2, disk2);
        assert(timeline(h3, disk3).back().forward() =~= timeline(h3, disk3));
    }
}

/// The history and the files after an operation that stands before `action`
/// was broken off: `good` actions succeed and the next one fails, which leaves
/// the document and the snapshots as they are. None, where the operation ends
/// before that.
pub open spec fn broken_off(h: HistoryModel, action: ActionModel, disk: Disk, good: nat) -> Option<
    (HistoryModel, Disk),
>
    decreases good,
{
    if action is Finish || action is Fail {
        None
    } else if good == 0 {
        Some((HistoryModel { pending: Pending::Nothing, ..h }, disk))
    } else {
        let (next, then_do) = h.advanced();
        broken_off(next, then_do, disk.performed(action), (good - 1) as nat)
    }
}

/// How an operation starts.
pub open spec fn begun(h: HistoryModel, operation: Operation) -> (HistoryModel, ActionModel) {
    match operation {
        Operation::Checkpoint => h.checkpoint_begun(),
        Operation::Undo => h.undo_begun(),
        Operation::Redo => h.redo_begun(),
    }
}

/// Whether the operation in progress is a checkpoint.
spec fn checkpointing(h: HistoryModel) -> bool {
    match h.pending {
        Pending::Directory { operation, .. } => operation is Checkpoint,
        Pending::Copy { operation, .. } => operation is Checkpoint,
        _ => false,
    }
}

proof fn lemma_broken_off(h: HistoryModel, action: ActionModel, disk: Disk, good: nat)
    requires
        h.wf(),
        h.pending is Directory ==> h.next_id < u64::MAX,
        match h.pending {
            Pending::Nothing => action is Finish || action is Fail,
            Pending::Directory { .. } => action is CreateDirectory,
            Pending::Copy { fresh, .. } => action == (ActionModel::CopyDocument {
                snapshot: fresh,
            }),
            Pending::Stage { .. } => action is Stage,
            Pending::Install { .. } => action is Install,
        },
        on_disk(h, disk),
    ensures
        broken_off(h, action, disk, good) matches Some((h2, disk2)) ==> {
            &&& at_rest(h2, disk2)
            &&& disk2.document == disk.document
            &&& checkpointing(h) ==> timeline(h2, disk2) == timeline(h, disk)
        },
    decreases good,
{
    reveal_with_fuel(broken_off, 2);
    lemma_advance_wf(h);
    assert(h.failed(Seq::empty()).0.wf());
    if action !is Finish && action !is Fail && good > 0 {
        let (next, then_do) = h.advanced();
        let now = disk.performed(action);
        if then_do !is Finish && then_do !is Fail {
            assert(on_disk(next, now)) by {
                assert forall|id: u64| #[trigger] (next.undo + next.redo).to_set().contains(
                    id,
                ) implies now.snapshots.dom().contains(id) by {
                    let ids = next.undo + next.redo;
                    let was = h.undo + h.redo;
                    let i = ids.index_of(id);
                    if was.contains(id) {
                        assert(was.to_set().contains(id));
                    } else if i < next.undo.len() {
                        if i < h.undo.len() {
                            assert(was[i] == id);
                        }
                    } else if i - next.undo.len() < h.redo.len() {
                        assert(was[h.undo.len() + i - next.undo.len()] == id);
                    }
                }
            }
            lemma_broken_off(next, then_do, now, (good - 1) as nat);
            if checkpointing(h) {
                assert(timeline(next, now) =~= timeline(h, disk));
            }
        }
    } else if good == 0 {
        let ended = HistoryModel { pending: Pending::Nothing, ..h };
        assert(timeline(ended, disk) =~= timeline(h, disk));
    }
}

/// An operation that is broken off by a failure, wherever that comes, leaves
/// the document as it was and the history ready for the next one, with the
/// snapshots on its stacks on disk. A checkpoint that fails changes neither the
/// past nor the future.
pub proof fn broken_off_operation_keeps_the_document(
    h: HistoryModel,
    disk: Disk,
    operation: Operation,
    good: nat,
)
    requires
        at_rest(h, disk),
        h.next_id < u64::MAX,
    ensures
        ({
            let (first, action) = begun(h, operation);
            broken_off(first, action, disk, good) matches Some((h2, disk2)) ==> {
                &&& at_rest(h2, disk2)
                &&& disk2.document == disk.document
                &&& operation is Checkpoint ==> timeline(h2, disk2) == timeline(h, disk)
            }
        }),
{
    let (first, action) = begun(h, operation);
    lemma_pop_wf(h);
    assert(h.checkpoint_begun().0.wf());
    assert(on_disk(first, disk)) by {
        assert forall|id: u64| #[trigger] (first.undo + first.redo).to_set().contains(
            id,
        ) implies disk.snapshots.dom().contains(id) by {
            let ids = first.undo + first.redo;
            let was = h.undo + h.redo;
            let i = ids.index_of(id);
            if i < first.undo.len() {
                assert(was[i] == id);
            } else {
                assert(was[h.undo.len() + i - first.undo.len()] == id);
            }
            assert(was.to_set().contains(id));
        }
    }
    if operation is Checkpoint {
        assert(timeline(first, disk) =~= timeline(h, disk));
    }
    lemma_broken_off(first, action, disk, good);
}

/// Whatever the outcome of each action, a history never keeps more snapshots
/// than its depth.
pub proof fn depth_is_bounded(h: HistoryModel)
    requires
        h.wf(),
    ensures
        h.undo.len() + h.redo.len() <= max_depth(),
{
}

} // verus!
