use sinker::controller::Action;
use sinker::error::{Error, KubeFailure};
use sinker::metrics::{all_outcomes, outcome, Outcome};
use sinker::objects::{ManagedFieldsEntry, ObjectMeta, Time};
use sinker::remote_watcher::{
    name_field_selector, react_to_watch_event, watcher_step, BackoffStep, Reaction,
    RemoteWatcherKey, WatchEvent, WatcherEvent, WatcherRequest, WatcherStage,
};
use sinker::remote_watcher_manager::WatcherRegistry;
use sinker::resource_extensions::ObjectRef;
use sinker::resources::{ClusterResourceRef, GVKN};

fn object_meta(manager: Option<&str>, rv: Option<&str>) -> ObjectMeta {
    ObjectMeta {
        name: Some("source-config".to_string()),
        namespace: None,
        uid: None,
        generation: None,
        resource_version: rv.map(String::from),
        deletion_timestamp: None,
        finalizers: None,
        annotations: None,
        managed_fields: manager.map(|m| {
            vec![ManagedFieldsEntry {
                manager: Some(m.to_string()),
                time: Some(Time { nanosecond: 1_704_067_200_000_000_000 }),
            }]
        }),
    }
}

fn object_event(kind: &str, manager: Option<&str>, rv: Option<&str>) -> WatchEvent {
    let meta = object_meta(manager, rv);
    match kind {
        "ADDED" => WatchEvent::Added(meta),
        "MODIFIED" => WatchEvent::Modified(meta),
        _ => WatchEvent::Deleted(meta),
    }
}

fn key_for(object: &str, namespace: Option<&str>) -> RemoteWatcherKey {
    RemoteWatcherKey {
        object: ClusterResourceRef {
            resource_ref: GVKN {
                api_version: "v1".to_string(),
                kind: "ConfigMap".to_string(),
                name: object.to_string(),
            },
            cluster: None,
        },
        resource_sync: ObjectRef {
            name: "copy-config".to_string(),
            namespace: namespace.map(String::from),
        },
    }
}

/// Runs the events through a watcher that listens from version `10`, counting the
/// reconciliations it asks for.
fn listen(events: Vec<WatchEvent>) -> Result<(String, usize), ()> {
    let key = key_for("source-config", Some("team-a"));
    let mut stage = WatcherStage::Streaming("10".to_string());
    let mut reconciles = 0;
    for event in events {
        let (next, action) = watcher_step(&key, stage, WatcherEvent::StreamItem(Ok(Some(event))));
        if action.send_reconcile {
            reconciles += 1;
        }
        match next {
            WatcherStage::Streaming(_) => stage = next,
            _ => return Err(()),
        }
    }
    match stage {
        WatcherStage::Streaming(v) => Ok((v, reconciles)),
        _ => Err(()),
    }
}

#[test]
fn watch_events_advance_versions_and_reconcile_when_needed() {
    let cases: Vec<(WatchEvent, &str, bool)> = vec![
        (object_event("ADDED", Some("external"), Some("11")), "11", true),
        (object_event("ADDED", Some("sinker.influxdata.io"), Some("11")), "11", false),
        (object_event("MODIFIED", Some("external"), Some("12")), "12", true),
        (object_event("MODIFIED", Some("sinker.influxdata.io"), Some("12")), "12", false),
        (object_event("MODIFIED", None, Some("13")), "13", true),
        (object_event("DELETED", Some("sinker.influxdata.io"), Some("14")), "14", true),
        (WatchEvent::Bookmark("15".to_string()), "15", false),
        (WatchEvent::Error(410), "0", false),
        (WatchEvent::Error(500), "10", true),
    ];
    for (event, expected_rv, reconcile) in cases {
        let (rv, reconciles) = listen(vec![event]).expect("read events");
        assert_eq!(rv, expected_rv);
        assert_eq!(reconciles, usize::from(reconcile));
    }
}

#[test]
fn object_events_require_resource_version() {
    for kind in ["ADDED", "MODIFIED", "DELETED"] {
        for earlier_events in [false, true] {
            let mut events = vec![];
            if earlier_events {
                events.push(object_event("ADDED", Some("external"), Some("11")));
                events.push(object_event("MODIFIED", None, Some("12")));
            }
            events.push(object_event(kind, None, None));
            let key = key_for("source-config", Some("team-a"));
            let mut stage = WatcherStage::Streaming("10".to_string());
            let mut reconciles = 0;
            let mut failed = false;
            for event in events {
                let (next, action) = watcher_step(&key, stage, WatcherEvent::StreamItem(Ok(Some(event))));
                if action.send_reconcile {
                    reconciles += 1;
                }
                if matches!(next, WatcherStage::Starting) {
                    assert!(matches!(action.next, WatcherRequest::Restart(_)));
                    assert_eq!(action.backoff, BackoffStep::Wait);
                    failed = true;
                }
                stage = next;
            }
            assert!(failed, "missing event version");
            assert_eq!(reconciles, if earlier_events { 3 } else { 1 });
            let missing = object_event(kind, None, None);
            assert!(matches!(
                react_to_watch_event("10".to_string(), &missing),
                Err(Error::ResourceVersionRequired)
            ));
        }
    }
}

#[test]
fn watch_sequences_preserve_versions_and_reconcile_counts() {
    let mixed = vec![
        object_event("ADDED", Some("external"), Some("11")),
        object_event("MODIFIED", Some("sinker.influxdata.io"), Some("12")),
        object_event("MODIFIED", None, Some("13")),
        object_event("DELETED", Some("sinker.influxdata.io"), Some("14")),
        object_event("ADDED", Some("sinker.influxdata.io"), Some("15")),
        object_event("MODIFIED", Some("external"), Some("16")),
        object_event("ADDED", None, Some("17")),
        object_event("DELETED", None, Some("18")),
        object_event("MODIFIED", Some("sinker.influxdata.io"), Some("19")),
    ];
    let cases: Vec<(Vec<WatchEvent>, &str, usize)> = vec![
        (vec![], "10", 0),
        (mixed, "19", 6),
        (vec![object_event("MODIFIED", None, Some("11")), WatchEvent::Bookmark("20".to_string())], "20", 1),
        (vec![object_event("MODIFIED", None, Some("11")), WatchEvent::Error(410)], "0", 1),
    ];
    for (events, expected_version, expected_reconciles) in cases {
        let (version, reconciles) = listen(events).expect("read events");
        assert_eq!(version, expected_version);
        assert_eq!(reconciles, expected_reconciles);
    }
}

#[test]
fn reactions_reset_or_wait_on_the_backoff() {
    let ok = react_to_watch_event("10".to_string(), &WatchEvent::Bookmark("3".into())).unwrap();
    assert_eq!(ok.0, Reaction::ResetBackoff);
    let failed = react_to_watch_event("10".to_string(), &WatchEvent::Error(500)).unwrap();
    assert_eq!(failed, (Reaction::ReconcileAndWait, "10".to_string()));
    let key = key_for("source-config", Some("team-a"));
    let (_, action) = watcher_step(
        &key,
        WatcherStage::Streaming("10".into()),
        WatcherEvent::StreamItem(Ok(Some(WatchEvent::Error(500)))),
    );
    assert!(action.send_reconcile);
    assert_eq!(action.backoff, BackoffStep::Wait);
    assert!(matches!(action.next, WatcherRequest::NextItem));
}

#[test]
fn start_reconciles_then_reconnects_from_last_event_with_name_selector() {
    let key = key_for("source-config", Some("team-a"));
    let (stage, action) = watcher_step(&key, WatcherStage::Starting, WatcherEvent::Start);
    assert!(matches!(&action.next, WatcherRequest::ResolveApi(ns) if ns == "team-a"));
    assert!(!action.send_reconcile);
    let (stage, action) = watcher_step(&key, stage, WatcherEvent::ApiResolved(Ok(())));
    assert!(matches!(&action.next, WatcherRequest::GetObject(name) if name == "source-config"));
    let (stage, action) = watcher_step(&key, stage, WatcherEvent::ObjectFetched(Ok(Some("10".into()))));
    assert!(action.send_reconcile);
    assert_eq!(action.backoff, BackoffStep::Reset);
    assert!(matches!(&action.next, WatcherRequest::OpenWatch(rv, selector)
        if rv == "10" && selector == "metadata.name=source-config"));
    let (stage, action) = watcher_step(&key, stage, WatcherEvent::WatchOpened(Ok(())));
    assert!(matches!(action.next, WatcherRequest::NextItem));
    let (stage, action) = watcher_step(
        &key,
        stage,
        WatcherEvent::StreamItem(Ok(Some(object_event("MODIFIED", Some("external"), Some("11"))))),
    );
    assert!(action.send_reconcile);
    let (stage, action) = watcher_step(&key, stage, WatcherEvent::StreamItem(Ok(None)));
    assert!(matches!(&action.next, WatcherRequest::OpenWatch(rv, _) if rv == "11"));
    let (stage, action) = watcher_step(
        &key,
        stage,
        WatcherEvent::WatchOpened(Err(KubeFailure { code: Some(403), message: "denied".into() })),
    );
    assert!(matches!(stage, WatcherStage::Starting));
    assert!(action.send_reconcile);
    assert_eq!(action.backoff, BackoffStep::Wait);
    assert!(matches!(action.next, WatcherRequest::Restart(_)));
    assert_eq!(name_field_selector("a"), "metadata.name=a");
}

#[test]
fn start_requires_namespace_before_api_access() {
    let key = key_for("source-config", None);
    let (stage, action) = watcher_step(&key, WatcherStage::Starting, WatcherEvent::Start);
    assert!(matches!(stage, WatcherStage::Starting));
    assert!(action.send_reconcile);
    assert!(matches!(action.next, WatcherRequest::Restart(Error::NamespaceRequired)));
}

#[test]
fn start_requires_initial_resource_version_before_sending_reconcile() {
    let key = key_for("source-config", Some("team-a"));
    let (stage, action) = watcher_step(&key, WatcherStage::Fetching, WatcherEvent::ObjectFetched(Ok(None)));
    assert!(matches!(stage, WatcherStage::Starting));
    assert!(matches!(action.next, WatcherRequest::Restart(Error::ResourceVersionRequired)));
}

#[test]
fn start_propagates_api_errors_before_sending_reconcile() {
    let key = key_for("source-config", Some("team-a"));
    let (_, action) = watcher_step(
        &key,
        WatcherStage::Resolving,
        WatcherEvent::ApiResolved(Err(Error::KubeError(KubeFailure { code: Some(403), message: "denied".into() }))),
    );
    assert!(matches!(&action.next, WatcherRequest::Restart(Error::KubeError(f)) if f.code == Some(403)));
    let (_, action) = watcher_step(
        &key,
        WatcherStage::Fetching,
        WatcherEvent::ObjectFetched(Err(KubeFailure { code: Some(404), message: "gone".into() })),
    );
    assert!(matches!(&action.next, WatcherRequest::Restart(Error::KubeError(f)) if f.code == Some(404) && f.message == "gone"));
}

#[test]
fn invalid_watch_json_returns_a_decode_error() {
    let key = key_for("source-config", Some("team-a"));
    let (stage, action) = watcher_step(
        &key,
        WatcherStage::Streaming("10".into()),
        WatcherEvent::StreamItem(Err(KubeFailure { code: None, message: "decode".into() })),
    );
    assert!(matches!(stage, WatcherStage::Starting));
    assert!(action.send_reconcile);
}

#[test]
fn removal_cancels_and_joins_only_the_requested_watcher() {
    let mut registry: WatcherRegistry<&str> = WatcherRegistry::new();
    let source = key_for("source-config", Some("team-a"));
    let target = key_for("target-config", Some("team-a"));
    registry.insert(source.copy(), "source handle");
    registry.insert(target.copy(), "target handle");
    assert!(registry.contains(&source) && registry.contains(&target));
    assert_eq!(registry.remove(&source), Some("source handle"));
    assert!(!registry.contains(&source));
    assert!(registry.contains(&target));
    assert_eq!(registry.remove(&source), None);
    assert_eq!(registry.remove(&target), Some("target handle"));
    assert!(!registry.contains(&target));
}

#[test]
fn stop_all_cancels_and_joins_every_owner_of_the_same_resource() {
    let mut registry: WatcherRegistry<u32> = WatcherRegistry::new();
    let first = key_for("source-config", Some("team-a"));
    let mut second = key_for("source-config", Some("team-a"));
    second.resource_sync.name = "other-sync".to_string();
    registry.insert(first.copy(), 1);
    registry.insert(second.copy(), 2);
    let mut all = registry.take_all();
    all.sort_by_key(|(_, h)| *h);
    assert_eq!(all.len(), 2);
    assert!(all[0].0.same_as(&first) && all[1].0.same_as(&second));
    assert!(!registry.contains(&first) && !registry.contains(&second));
    assert!(registry.take_all().is_empty());
}

#[test]
fn completed_attempt_preserves_result_and_records_one_outcome() {
    assert_eq!(outcome(&Ok::<Action, Error>(Action::AwaitChange)), Outcome::Success);
    assert_eq!(outcome(&Ok::<Action, Error>(Action::Requeue { secs: 0, nanos: 0 })), Outcome::Requeue);
    assert_eq!(outcome(&Ok::<Action, Error>(Action::requeue_millis(500))), Outcome::RequeueAfter);
    assert_eq!(outcome(&Err::<Action, Error>(Error::MappingEmpty)), Outcome::Error);
    let labels: Vec<&str> = all_outcomes().iter().map(|o| o.label()).collect();
    assert_eq!(labels, vec!["success", "error", "requeue", "requeue_after"]);
}
