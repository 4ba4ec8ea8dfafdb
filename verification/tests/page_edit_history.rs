use std::collections::BTreeMap;

use papers::page_edit_history::{
    directory_name, snapshot_name, staging_extension, Action, Operation, PageEditHistory,
};

/// The files of a document and its history, in memory.
struct Files {
    document: Vec<u8>,
    staged: Vec<u8>,
    snapshots: BTreeMap<u64, Vec<u8>>,
    has_directory: bool,
    /// The number of the action that fails, counted from 1.
    failing: Option<u32>,
    actions: u32,
}

impl Files {
    fn new(document: &[u8]) -> Files {
        Files {
            document: document.to_vec(),
            staged: Vec::new(),
            snapshots: BTreeMap::new(),
            has_directory: false,
            failing: None,
            actions: 0,
        }
    }

    /// Performs the actions of an operation until it ends.
    fn run(&mut self, history: &mut PageEditHistory, first: Action) -> Result<(), String> {
        let mut action = first;
        loop {
            let outcome = match action {
                Action::Finish { remove } => {
                    for id in remove {
                        self.snapshots.remove(&id);
                    }
                    return Ok(());
                }
                Action::Fail { error } => return Err(error),
                other => self.perform(other),
            };
            action = history.advance(outcome);
        }
    }

    fn perform(&mut self, action: Action) -> Result<(), String> {
        self.actions += 1;
        if self.failing == Some(self.actions) {
            return Err("disk full".to_string());
        }
        match action {
            Action::CreateDirectory => self.has_directory = true,
            Action::CopyDocument { snapshot } => {
                assert!(self.has_directory);
                self.snapshots.insert(snapshot, self.document.clone());
            }
            Action::Stage { snapshot, .. } => {
                self.staged = self.snapshots.get(&snapshot).unwrap().clone();
            }
            Action::Install { .. } => self.document = self.staged.clone(),
            _ => unreachable!(),
        }
        Ok(())
    }

    fn checkpoint(&mut self, history: &mut PageEditHistory) -> Result<(), String> {
        let first = history.checkpoint();
        self.run(history, first)
    }

    fn undo(&mut self, history: &mut PageEditHistory) -> Result<(), String> {
        let first = history.undo();
        self.run(history, first)
    }

    fn redo(&mut self, history: &mut PageEditHistory) -> Result<(), String> {
        let first = history.redo();
        self.run(history, first)
    }

    fn clear(&mut self, history: &mut PageEditHistory) {
        for id in history.clear() {
            self.snapshots.remove(&id);
        }
    }
}

#[test]
fn checkpoint_then_undo_restores_exact_prior_bytes() {
    let mut files = Files::new(b"original content");
    let mut history = PageEditHistory::default();
    files.checkpoint(&mut history).expect("checkpoint should succeed");

    files.document = b"edited content".to_vec();
    assert_eq!(files.document, b"edited content");

    files.undo(&mut history).expect("undo should succeed");
    assert_eq!(files.document, b"original content");
}

#[test]
fn undo_then_redo_restores_post_edit_state() {
    let mut files = Files::new(b"original content");
    let mut history = PageEditHistory::default();
    files.checkpoint(&mut history).unwrap();
    files.document = b"edited content".to_vec();

    files.undo(&mut history).unwrap();
    assert_eq!(files.document, b"original content");

    files.redo(&mut history).unwrap();
    assert_eq!(files.document, b"edited content");
}

#[test]
fn fresh_checkpoint_after_undo_discards_redo_stack() {
    let mut files = Files::new(b"v1");
    let mut history = PageEditHistory::default();
    files.checkpoint(&mut history).unwrap();
    files.document = b"v2".to_vec();

    files.undo(&mut history).unwrap();
    assert!(history.can_redo());

    files.checkpoint(&mut history).unwrap();
    files.document = b"v3".to_vec();

    assert!(
        !history.can_redo(),
        "a fresh edit after undo should discard the redo stack"
    );
}

#[test]
fn eviction_past_max_depth_keeps_only_the_most_recent() {
    let mut files = Files::new(b"v0");
    let mut history = PageEditHistory::default();
    for i in 0..(PageEditHistory::MAX_DEPTH + 5) {
        files.checkpoint(&mut history).unwrap();
        files.document = format!("v{}", i + 1).into_bytes();
    }

    assert_eq!(history.undo_depth(), PageEditHistory::MAX_DEPTH);
    assert_eq!(files.snapshots.len(), PageEditHistory::MAX_DEPTH);

    let mut seen = Vec::new();
    while history.can_undo() {
        files.undo(&mut history).unwrap();
        seen.push(String::from_utf8(files.document.clone()).unwrap());
    }
    assert_eq!(
        seen,
        vec!["v14", "v13", "v12", "v11", "v10", "v9", "v8", "v7", "v6", "v5"]
    );
}

#[test]
fn clear_removes_all_snapshot_files() {
    let mut files = Files::new(b"v0");
    let mut history = PageEditHistory::default();
    files.checkpoint(&mut history).unwrap();
    files.document = b"v1".to_vec();
    files.undo(&mut history).unwrap();
    assert!(history.can_redo());

    files.clear(&mut history);

    assert!(!history.can_undo());
    assert!(!history.can_redo());
    assert_eq!(files.snapshots.len(), 0);
}

#[test]
fn nothing_to_undo_or_redo_is_an_error() {
    let mut files = Files::new(b"v0");
    let mut history = PageEditHistory::default();
    assert_eq!(files.undo(&mut history).unwrap_err(), "nothing to undo");
    assert_eq!(files.redo(&mut history).unwrap_err(), "nothing to redo");
    assert!(history.is_idle());
}

#[test]
fn the_directory_is_made_once() {
    let mut files = Files::new(b"v0");
    let mut history = PageEditHistory::default();
    assert!(!history.has_directory());
    assert!(matches!(history.checkpoint(), Action::CreateDirectory));
    assert!(matches!(
        history.advance(Ok(())),
        Action::CopyDocument { snapshot: 0 }
    ));
    files.has_directory = true;
    files.snapshots.insert(0, files.document.clone());
    assert!(matches!(history.advance(Ok(())), Action::Finish { .. }));
    assert!(history.has_directory());
    assert!(matches!(
        history.checkpoint(),
        Action::CopyDocument { snapshot: 1 }
    ));
}

#[test]
fn a_failed_checkpoint_leaves_the_stacks() {
    let mut files = Files::new(b"v0");
    let mut history = PageEditHistory::default();
    files.checkpoint(&mut history).unwrap();
    files.failing = Some(files.actions + 1);
    assert_eq!(files.checkpoint(&mut history).unwrap_err(), "disk full");
    assert_eq!(history.undo_depth(), 1);
    assert!(!history.can_redo());
    assert!(history.is_idle());
}

#[test]
fn a_failed_undo_keeps_the_document() {
    for step in 1..=3 {
        let mut files = Files::new(b"old");
        let mut history = PageEditHistory::default();
        files.checkpoint(&mut history).unwrap();
        files.document = b"new".to_vec();
        files.failing = Some(files.actions + step);
        assert_eq!(files.undo(&mut history).unwrap_err(), "disk full");
        assert_eq!(files.document, b"new");
        assert!(!history.can_undo());
        assert_eq!(history.can_redo(), step > 1);
    }
}

#[test]
fn redo_inverts_undo_at_depth() {
    let mut files = Files::new(b"a");
    let mut history = PageEditHistory::default();
    for next in [b"b", b"c", b"d"] {
        files.checkpoint(&mut history).unwrap();
        files.document = next.to_vec();
    }
    files.undo(&mut history).unwrap();
    files.undo(&mut history).unwrap();
    assert_eq!(files.document, b"b");
    files.redo(&mut history).unwrap();
    assert_eq!(files.document, b"c");
    files.undo(&mut history).unwrap();
    assert_eq!(files.document, b"b");
    files.redo(&mut history).unwrap();
    files.redo(&mut history).unwrap();
    assert_eq!(files.document, b"d");
    assert!(!history.can_redo());
    assert_eq!(files.snapshots.len(), 3);
}

#[test]
fn files_are_named_by_number() {
    assert_eq!(snapshot_name(0), "0.pdf");
    assert_eq!(snapshot_name(u64::MAX), "18446744073709551615.pdf");
    assert_eq!(directory_name(4711, 12), "papers-page-history-4711-12");
    assert_eq!(staging_extension(Operation::Checkpoint), None);
    assert_eq!(
        staging_extension(Operation::Undo),
        Some("papers-undo-tmp".to_string())
    );
    assert_eq!(
        staging_extension(Operation::Redo),
        Some("papers-redo-tmp".to_string())
    );
}

#[test]
fn several_undos_and_redos_walk_the_timeline() {
    let mut files = Files::new(b"v0");
    let mut history = PageEditHistory::default();
    for i in 1..=4 {
        files.checkpoint(&mut history).unwrap();
        files.document = format!("v{i}").into_bytes();
    }
    for i in (1..4).rev() {
        files.undo(&mut history).unwrap();
        assert_eq!(files.document, format!("v{i}").into_bytes());
    }
    for i in 2..=4 {
        files.redo(&mut history).unwrap();
        assert_eq!(files.document, format!("v{i}").into_bytes());
    }
    assert_eq!(history.undo_depth(), 4);
    assert!(!history.can_redo());
}

#[test]
fn history_goes_on_after_an_operation_was_broken_off() {
    let mut files = Files::new(b"v0");
    let mut history = PageEditHistory::default();
    for i in 1..=3 {
        files.checkpoint(&mut history).unwrap();
        files.document = format!("v{i}").into_bytes();
    }
    files.failing = Some(files.actions + 2);
    assert!(files.undo(&mut history).is_err());
    files.failing = None;
    assert_eq!(files.document, b"v3");
    assert!(files.snapshots.len() > history.undo_depth() + 1);

    files.undo(&mut history).unwrap();
    assert_eq!(files.document, b"v1");
    files.redo(&mut history).unwrap();
    assert_eq!(files.document, b"v3");
    files.checkpoint(&mut history).unwrap();
    files.document = b"v4".to_vec();
    files.undo(&mut history).unwrap();
    assert_eq!(files.document, b"v3");
}
