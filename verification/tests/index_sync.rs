use opencontext_core::config::SearchConfig;
use opencontext_core::events::{DocEvent, Event, FolderEvent};
use opencontext_core::index_sync::{
    event_to_actions, tally, IndexAction, IndexSyncService, PendingActions, Tick,
};
use opencontext_core::indexer::{action_steps, IndexStep};

fn created(p: &str) -> Event {
    Event::Doc(DocEvent::Created { rel_path: p.to_string() })
}

fn updated(p: &str) -> Event {
    Event::Doc(DocEvent::Updated { rel_path: p.to_string() })
}

fn deleted(p: &str) -> Event {
    Event::Doc(DocEvent::Deleted { rel_path: p.to_string() })
}

fn renamed(a: &str, b: &str) -> Event {
    Event::Doc(DocEvent::Renamed { old_path: a.to_string(), new_path: b.to_string() })
}

fn moved(a: &str, b: &str) -> Event {
    Event::Doc(DocEvent::Moved { old_path: a.to_string(), new_path: b.to_string() })
}

fn show(action: &IndexAction) -> String {
    match action {
        IndexAction::Update { rel_path } => format!("update {rel_path}"),
        IndexAction::Remove { rel_path } => format!("remove {rel_path}"),
        IndexAction::Rename { old_path, new_path } => format!("rename {old_path} {new_path}"),
    }
}

fn shown(actions: &[IndexAction]) -> Vec<String> {
    let mut out: Vec<String> = actions.iter().map(show).collect();
    out.sort();
    out
}

fn flushed(tick: Tick) -> Vec<IndexAction> {
    match tick {
        Tick::Flush { actions } => actions,
        other => panic!("nothing to flush: {other:?}"),
    }
}

fn service() -> IndexSyncService {
    IndexSyncService::new(SearchConfig::default(), "/data/contexts".to_string())
}

#[test]
fn events_become_actions() {
    assert_eq!(shown(&event_to_actions(created("a"))), vec!["update a"]);
    assert_eq!(shown(&event_to_actions(updated("a"))), vec!["update a"]);
    assert_eq!(shown(&event_to_actions(deleted("a"))), vec!["remove a"]);
    assert_eq!(shown(&event_to_actions(renamed("a", "b"))), vec!["rename a b"]);
    assert_eq!(shown(&event_to_actions(moved("a", "b"))), vec!["rename a b"]);
    assert!(event_to_actions(Event::Folder(FolderEvent::Created { rel_path: "f".into() }))
        .is_empty());
    let pairs = vec![("f/a".to_string(), "g/a".to_string()), ("f/b".to_string(), "g/b".to_string())];
    let actions = event_to_actions(Event::Folder(FolderEvent::Renamed {
        old_path: "f".into(),
        new_path: "g".into(),
        affected_docs: pairs.clone(),
    }));
    assert_eq!(
        actions.iter().map(show).collect::<Vec<_>>(),
        vec!["rename f/a g/a", "rename f/b g/b"]
    );
    let actions = event_to_actions(Event::Folder(FolderEvent::Moved {
        old_path: "f".into(),
        new_path: "g".into(),
        affected_docs: pairs,
    }));
    assert_eq!(actions.len(), 2);
    let actions = event_to_actions(Event::Folder(FolderEvent::Deleted {
        rel_path: "f".into(),
        removed_docs: vec!["f/a".into(), "f/b".into()],
    }));
    assert_eq!(actions.iter().map(show).collect::<Vec<_>>(), vec!["remove f/a", "remove f/b"]);
}

#[test]
fn scenario_coalesce() {
    let mut sync = service();
    sync.on_event(created("a"));
    sync.on_event(updated("a"));
    assert_eq!(sync.pending_count(), 1);
    sync.on_event(renamed("a", "b"));
    sync.on_event(updated("b"));
    // the update of b has taken the place of the rename under b
    assert_eq!(sync.pending_count(), 1);
    let batch = flushed(sync.on_tick(true));
    assert_eq!(shown(&batch), vec!["update b"]);
    assert_eq!(sync.pending_count(), 0);
}

#[test]
fn a_rename_collapses_what_waited_for_the_old_path() {
    let mut pending = PendingActions::new();
    pending.apply(IndexAction::Update { rel_path: "a".into() });
    pending.apply(IndexAction::Update { rel_path: "a".into() });
    pending.apply(IndexAction::Rename { old_path: "a".into(), new_path: "b".into() });
    assert_eq!(pending.len(), 1);
    let batch = pending.drain();
    assert_eq!(shown(&batch), vec!["rename a b"]);
    assert!(pending.is_empty());
    // carrying it out removes a and indexes b once
    let steps = action_steps(&batch[0]);
    assert!(matches!(
        steps.as_slice(),
        [IndexStep::RemoveFile { rel_path: old }, IndexStep::IndexFileIfPresent { rel_path: new }]
            if old == "a" && new == "b"
    ));
    assert!(matches!(
        action_steps(&IndexAction::Update { rel_path: "p".into() }).as_slice(),
        [IndexStep::IndexFile { rel_path }] if rel_path == "p"
    ));
    assert!(matches!(
        action_steps(&IndexAction::Remove { rel_path: "p".into() }).as_slice(),
        [IndexStep::RemoveFile { rel_path }] if rel_path == "p"
    ));
}

#[test]
fn latest_action_wins_for_each_path() {
    let mut pending = PendingActions::new();
    pending.apply(IndexAction::Update { rel_path: "x".into() });
    pending.apply(IndexAction::Remove { rel_path: "x".into() });
    pending.apply(IndexAction::Remove { rel_path: "y".into() });
    pending.apply(IndexAction::Update { rel_path: "y".into() });
    pending.apply(IndexAction::Rename { old_path: "q".into(), new_path: "z".into() });
    pending.apply(IndexAction::Rename { old_path: "z".into(), new_path: "z".into() });
    assert_eq!(pending.len(), 3);
    assert_eq!(shown(&pending.drain()), vec!["remove x", "rename z z", "update y"]);
}

#[test]
fn no_more_wait_than_paths_were_named() {
    let paths = ["a", "b", "c"];
    let mut pending = PendingActions::new();
    let mut state: u32 = 12345;
    for _ in 0..200 {
        state = state.wrapping_mul(1103515245).wrapping_add(12345);
        let p = paths[(state >> 16) as usize % 3].to_string();
        let q = paths[(state >> 20) as usize % 3].to_string();
        match (state >> 8) % 3 {
            0 => pending.apply(IndexAction::Update { rel_path: p }),
            1 => pending.apply(IndexAction::Remove { rel_path: p }),
            _ => pending.apply(IndexAction::Rename { old_path: p, new_path: q }),
        }
        assert!(pending.len() <= paths.len());
    }
    let batch = pending.drain();
    let mut keys: Vec<String> = batch
        .iter()
        .map(|a| match a {
            IndexAction::Update { rel_path } | IndexAction::Remove { rel_path } => rel_path.clone(),
            IndexAction::Rename { new_path, .. } => new_path.clone(),
        })
        .collect();
    keys.sort();
    keys.dedup();
    assert_eq!(keys.len(), batch.len());
}

#[test]
fn service_defaults_and_switch() {
    let mut sync = service();
    assert!(sync.is_enabled());
    assert_eq!(sync.check_interval_secs(), 300);
    assert_eq!(sync.pending_count(), 0);
    assert_eq!(sync.contexts_root(), "/data/contexts");
    assert_eq!(sync.config().embedding.dimensions, 1536);
    assert!(matches!(sync.on_tick(true), Tick::Idle));
    let mut sync = sync.with_interval(5);
    assert_eq!(sync.check_interval_secs(), 5);
    sync.on_event(created("a"));
    sync.set_enabled(false);
    assert!(!sync.is_enabled());
    // while switched off events are lost and ticks do nothing
    sync.on_event(created("b"));
    assert_eq!(sync.pending_count(), 1);
    assert!(matches!(sync.on_tick(true), Tick::Idle));
    assert_eq!(sync.pending_count(), 1);
    sync.set_enabled(true);
    assert_eq!(shown(&flushed(sync.on_tick(true))), vec!["update a"]);
    assert!(matches!(sync.on_tick(true), Tick::Idle));
}

#[test]
fn without_an_index_what_waits_is_dropped() {
    let mut sync = service();
    assert!(matches!(sync.on_tick(false), Tick::Idle));
    sync.on_event(created("a"));
    sync.on_event(deleted("b"));
    assert!(matches!(sync.on_tick(false), Tick::Dropped { count: 2 }));
    assert_eq!(sync.pending_count(), 0);
    assert!(matches!(sync.on_tick(true), Tick::Idle));
}

#[test]
fn flush_is_tallied() {
    let report = tally(&vec![true, false, true, true]);
    assert_eq!(report.success_count, 3);
    assert_eq!(report.error_count, 1);
    assert!(report.update_metadata);
    let report = tally(&vec![false, false]);
    assert_eq!((report.success_count, report.error_count), (0, 2));
    assert!(!report.update_metadata);
    let report = tally(&vec![]);
    assert_eq!((report.success_count, report.error_count), (0, 0));
    assert!(!report.update_metadata);
}
