use sinker::controller::{
    error_policy, reconcile_status, reconcile_status_at, step_at, sync_failing_transition_time,
    sync_failing_transition_time_at, Action, Command, Event, Propagation, Stage, TargetMeta,
    RESOURCE_SYNC_FAILING_CONDITION, RESOURCE_SYNC_SUCCEEDED_REASON,
};
use sinker::error::{Error, KubeFailure};
use sinker::json::Json;
use sinker::metrics::{outcome, Outcome};
use sinker::objects::{ApiResource, Condition, DynamicObject, ObjectMeta, Time, TypeMeta};
use sinker::resource_extensions::NamespacedApi;
use sinker::resources::{
    ClusterRef, ClusterResourceRef, KubeConfig, Mapping, ResourceSync, ResourceSyncSpec,
    ResourceSyncStatus, SecretRef, DISABLE_TARGET_DELETION_ANNOTATION, FINALIZER,
    FORCE_DELETE_ANNOTATION, GVKN,
};

const EPOCH: Time = Time { nanosecond: 0 };
const LATER: Time = Time { nanosecond: 1_700_000_000_000_000_000 };

fn meta() -> ObjectMeta {
    ObjectMeta {
        name: None,
        namespace: None,
        uid: None,
        generation: None,
        resource_version: None,
        deletion_timestamp: None,
        finalizers: None,
        annotations: None,
        managed_fields: None,
    }
}

fn reference(name: &str) -> ClusterResourceRef {
    ClusterResourceRef {
        resource_ref: GVKN {
            api_version: "v1".to_string(),
            kind: "ConfigMap".to_string(),
            name: name.to_string(),
        },
        cluster: None,
    }
}

/// A `ResourceSync` named `copy-config` in `team-a`, copying `source-config` to
/// `target-config`.
fn sync_fixture() -> ResourceSync {
    let mut metadata = meta();
    metadata.name = Some("copy-config".to_string());
    metadata.namespace = Some("team-a".to_string());
    metadata.uid = Some("sync-uid".to_string());
    metadata.generation = Some(7);
    ResourceSync {
        metadata,
        spec: ResourceSyncSpec {
            source: reference("source-config"),
            target: reference("target-config"),
            mappings: vec![],
        },
        status: None,
    }
}

fn resource_sync(deleted: bool, status: Option<ResourceSyncStatus>) -> ResourceSync {
    let mut metadata = meta();
    if deleted {
        metadata.deletion_timestamp = Some(EPOCH);
    }
    ResourceSync {
        metadata,
        spec: ResourceSyncSpec {
            source: reference(""),
            target: reference(""),
            mappings: vec![],
        },
        status,
    }
}

fn condition(type_: &str, status: &str) -> Condition {
    Condition {
        last_transition_time: EPOCH,
        message: String::new(),
        observed_generation: None,
        reason: String::new(),
        status: status.to_string(),
        type_: type_.to_string(),
    }
}

fn status_with_condition(status: &str) -> Option<ResourceSyncStatus> {
    Some(ResourceSyncStatus {
        conditions: Some(vec![condition(RESOURCE_SYNC_FAILING_CONDITION, status)]),
    })
}

fn single_condition(status: Option<ResourceSyncStatus>) -> Condition {
    let mut conditions = status.unwrap().conditions.unwrap();
    assert_eq!(conditions.len(), 1);
    conditions.remove(0)
}

fn clock() -> i128 {
    k8s_openapi::jiff::Timestamp::now().as_nanosecond()
}

fn config_map_api(namespace: Option<&str>) -> NamespacedApi {
    NamespacedApi {
        ar: ApiResource {
            group: String::new(),
            version: "v1".to_string(),
            api_version: "v1".to_string(),
            kind: "ConfigMap".to_string(),
            plural: "configmaps".to_string(),
        },
        namespace: namespace.map(String::from),
    }
}

fn failure(code: u16) -> KubeFailure {
    KubeFailure { code: Some(code), message: format!("scripted failure {}", code) }
}

fn annotate(sync: &mut ResourceSync, key: &str, value: &str) {
    sync.metadata.annotations = Some(vec![(key.to_string(), value.to_string())]);
}

/// Feeds `Start` and then `answers` to a reconciliation of `sync`, collecting the
/// commands it gives.
fn drive(sync: &ResourceSync, answers: Vec<Event>) -> Vec<Command> {
    let mut stage = Stage::Start;
    let mut commands = Vec::new();
    let mut events = vec![Event::Start];
    events.extend(answers);
    for event in events {
        let (next, command) = step_at(sync, stage, event, LATER);
        stage = next;
        commands.push(command);
    }
    commands
}

fn resolved() -> Vec<Event> {
    vec![
        Event::ApiResolved(Ok(config_map_api(Some("team-a")))),
        Event::ApiResolved(Ok(config_map_api(Some("team-a")))),
    ]
}

fn finalizers_of(command: &Command) -> Vec<String> {
    match command {
        Command::PatchFinalizers(f) => f.clone(),
        other => panic!("expected a finalizer patch, got {:?}", other),
    }
}

fn written_condition(command: &Command) -> &Condition {
    match command {
        Command::WriteStatus(status) => {
            let conditions = status.conditions.as_ref().expect("conditions");
            assert_eq!(conditions.len(), 1);
            &conditions[0]
        },
        other => panic!("expected a status write, got {:?}", other),
    }
}

fn source_object() -> DynamicObject {
    DynamicObject {
        types: Some(TypeMeta { api_version: "v1".to_string(), kind: "ConfigMap".to_string() }),
        metadata: Json::Object(vec![("name".to_string(), Json::String("source-config".to_string()))]),
        data: Json::Object(vec![(
            "data".to_string(),
            Json::Object(vec![("original".to_string(), Json::String("value".to_string()))]),
        )]),
    }
}

#[test]
fn test_reconcile_status_err_sets_failing_true() {
    let rs = resource_sync(false, None);
    let result: Result<Action, Error> = Err(Error::NameRequired);
    let condition = single_condition(reconcile_status(&rs, &rs.status, &result));
    assert_eq!(condition.type_, RESOURCE_SYNC_FAILING_CONDITION);
    assert_eq!(condition.status, "True");
    assert_eq!(condition.reason, RESOURCE_SYNC_FAILING_CONDITION);
    assert_eq!(condition.message, Error::NameRequired.message());
}

#[test]
fn test_reconcile_status_ok_resets_failing_to_false() {
    let rs = resource_sync(false, status_with_condition("True"));
    let result: Result<Action, Error> = Ok(Action::await_change());
    let condition = single_condition(reconcile_status(&rs, &rs.status, &result));
    assert_eq!(condition.type_, RESOURCE_SYNC_FAILING_CONDITION);
    assert_eq!(condition.status, "False");
    assert_eq!(condition.reason, RESOURCE_SYNC_SUCCEEDED_REASON);
}

#[test]
fn test_reconcile_status_uses_live_status_for_transition_time() {
    let rs = resource_sync(false, status_with_condition("True"));
    let live_status = status_with_condition("False");
    let result: Result<Action, Error> = Ok(Action::await_change());
    let condition = single_condition(reconcile_status(&rs, &live_status, &result));
    assert_eq!(condition.status, "False");
    assert_eq!(condition.last_transition_time, EPOCH);
}

#[test]
fn test_reconcile_status_ok_deleted_skips_status_write() {
    let rs = resource_sync(true, status_with_condition("True"));
    let result: Result<Action, Error> = Ok(Action::await_change());
    assert!(reconcile_status(&rs, &rs.status, &result).is_none());
}

#[test]
fn deletion_errors_still_update_status_and_ignore_unrelated_conditions() {
    let mut live = status_with_condition("True").expect("status fixture");
    live.conditions.as_mut().expect("conditions")[0].type_ = "OtherCondition".into();
    let mut sync = resource_sync(true, None);
    sync.metadata.generation = Some(9);
    let before = clock();
    let condition =
        single_condition(reconcile_status(&sync, &Some(live), &Err(Error::NamespaceRequired)));
    let after = clock();
    assert_eq!(condition.status, "True");
    assert_eq!(condition.observed_generation, Some(9));
    assert_eq!(condition.message, "Namespace is required");
    assert!(before <= condition.last_transition_time.nanosecond);
    assert!(condition.last_transition_time.nanosecond <= after);
}

#[test]
fn sync_failing_transition_time_keeps_or_renews_the_time() {
    let cases: Vec<(Option<ResourceSyncStatus>, &str, Option<Time>)> = vec![
        (None, "True", None),
        (Some(ResourceSyncStatus { conditions: None }), "True", None),
        (Some(ResourceSyncStatus { conditions: Some(vec![]) }), "True", None),
        (status_with_condition("True"), "True", Some(EPOCH)),
        (status_with_condition("False"), "False", Some(EPOCH)),
        (status_with_condition("False"), "True", None),
        (status_with_condition("True"), "False", None),
    ];
    for (status, new_status, expected) in cases {
        assert_eq!(sync_failing_transition_time_at(&status, new_status, LATER), expected.unwrap_or(LATER));
        let before = clock();
        let result = sync_failing_transition_time(&status, new_status);
        let after = clock();
        match expected {
            Some(t) => assert_eq!(result, t),
            None => assert!(before <= result.nanosecond && result.nanosecond <= after),
        }
    }
}

#[test]
fn transition_time_finds_the_sync_condition_among_other_conditions() {
    let expected = Time { nanosecond: 1_700_000_000_000_000_000 };
    for position in 0..3 {
        let mut matching = condition(RESOURCE_SYNC_FAILING_CONDITION, "True");
        matching.last_transition_time = expected;
        let unrelated = condition("Unrelated", "True");
        let another = condition("AnotherCondition", "False");
        let mut conditions = vec![unrelated, another];
        conditions.insert(position, matching);
        let status = Some(ResourceSyncStatus { conditions: Some(conditions) });
        assert_eq!(sync_failing_transition_time_at(&status, "True", EPOCH), expected);
    }
}

#[test]
fn reconciliation_errors_retry_after_five_seconds() {
    assert_eq!(
        error_policy(&sync_fixture(), &Error::NamespaceRequired),
        Action::Requeue { secs: 5, nanos: 0 }
    );
}

#[test]
fn requeue_macro_supports_default_seconds_and_subsecond_durations() {
    assert_eq!(Action::requeue_secs(5), Action::Requeue { secs: 5, nanos: 0 });
    assert_eq!(Action::requeue_secs(12), Action::Requeue { secs: 12, nanos: 0 });
    assert_eq!(Action::requeue_millis(500), Action::Requeue { secs: 0, nanos: 500_000_000 });
    assert_eq!(Action::requeue_millis(1_250), Action::Requeue { secs: 1, nanos: 250_000_000 });
}

#[test]
fn initialization_preserves_finalizers_and_writes_live_success_status() {
    let mut sync = sync_fixture();
    sync.metadata.finalizers = Some(vec!["example.com/other".into()]);
    sync.status = status_with_condition("True");
    let mut answers = resolved();
    answers.push(Event::FinalizersPatched(Ok(())));
    answers.push(Event::StatusRead(Ok(status_with_condition("False"))));
    answers.push(Event::StatusWritten(Ok(())));
    let commands = drive(&sync, answers);
    assert!(matches!(&commands[0], Command::ResolveTargetApi(ns) if ns == "team-a"));
    assert!(matches!(&commands[1], Command::ResolveSourceApi(ns) if ns == "team-a"));
    assert_eq!(finalizers_of(&commands[2]), vec!["example.com/other".to_string(), FINALIZER.to_string()]);
    assert!(matches!(commands[3], Command::ReadStatus));
    let condition = written_condition(&commands[4]);
    assert_eq!(condition.last_transition_time, EPOCH);
    assert_eq!(condition.observed_generation, Some(7));
    assert_eq!(condition.status, "False");
    assert_eq!(condition.message, "Sync succeeded");
    assert!(matches!(
        commands[5],
        Command::Done(Ok(Action::Requeue { secs: 0, nanos: 500_000_000 }))
    ));
    assert_eq!(outcome(&Ok::<Action, Error>(Action::requeue_millis(500))), Outcome::RequeueAfter);
}

#[test]
fn deleted_missing_target_removes_only_our_finalizer_and_skips_status() {
    let mut sync = sync_fixture();
    sync.metadata.deletion_timestamp = Some(EPOCH);
    sync.metadata.finalizers =
        Some(vec![FINALIZER.into(), "example.com/keep".into(), FINALIZER.into()]);
    let mut answers = resolved();
    answers.push(Event::TargetFetched(Err(failure(404))));
    answers.push(Event::WatchesStopped);
    answers.push(Event::FinalizersPatched(Ok(())));
    let commands = drive(&sync, answers);
    assert!(matches!(commands[2], Command::GetTarget));
    assert!(matches!(commands[3], Command::StopWatches));
    assert_eq!(finalizers_of(&commands[4]), vec!["example.com/keep".to_string()]);
    assert!(matches!(commands[5], Command::Done(Ok(Action::AwaitChange))));
    assert_eq!(outcome(&Ok::<Action, Error>(Action::AwaitChange)), Outcome::Success);
}

#[test]
fn source_failure_is_returned_and_written_to_status() {
    let mut sync = sync_fixture();
    sync.metadata.finalizers = Some(vec![FINALIZER.into()]);
    let mut answers = resolved();
    answers.push(Event::SourceFetched(Err(failure(404))));
    answers.push(Event::StatusRead(Ok(status_with_condition("True"))));
    answers.push(Event::StatusWritten(Ok(())));
    let commands = drive(&sync, answers);
    assert!(matches!(commands[2], Command::GetSource));
    assert!(matches!(commands[3], Command::ReadStatus));
    let condition = written_condition(&commands[4]);
    assert_eq!(condition.status, "True");
    assert_eq!(condition.observed_generation, Some(7));
    assert_eq!(condition.last_transition_time, EPOCH);
    match &commands[5] {
        Command::Done(Err(error)) => {
            assert!(matches!(error, Error::ResourceNotFoundError(name, kind, f)
                if name == "source-config" && kind == "ConfigMap" && f.code == Some(404)));
            assert_eq!(condition.message, error.message());
            assert_eq!(
                error.message(),
                "Resource source-config of kind ConfigMap not found: scripted failure 404"
            );
        },
        other => panic!("unexpected {:?}", other),
    }
}

#[test]
fn force_delete_only_bypasses_api_resolution_for_deleting_syncs() {
    // (deleted, force, failing side is the source, finalizer removed)
    let cases = [
        (true, true, false, true),
        (true, true, true, true),
        (true, false, false, false),
        (false, true, false, false),
    ];
    for (deleted, force, source_failure, removed) in cases {
        let mut sync = sync_fixture();
        if deleted {
            sync.metadata.deletion_timestamp = Some(EPOCH);
        }
        sync.metadata.finalizers = Some(vec![FINALIZER.into(), "example.com/keep".into()]);
        annotate(&mut sync, FORCE_DELETE_ANNOTATION, if force { "true" } else { "false" });
        let mut answers = vec![];
        if source_failure {
            answers.push(Event::ApiResolved(Ok(config_map_api(Some("team-a")))));
        }
        answers.push(Event::ApiResolved(Err(Error::KubeError(failure(403)))));
        let commands = drive(&sync, answers);
        let last = commands.last().unwrap();
        if removed {
            assert!(matches!(last, Command::StopWatches));
            let (stage, command) = step_at(&sync, Stage::StoppingWatches, Event::WatchesStopped, EPOCH);
            assert_eq!(finalizers_of(&command), vec!["example.com/keep".to_string()]);
            let (_, done) = step_at(&sync, stage, Event::FinalizersPatched(Ok(())), EPOCH);
            assert!(matches!(done, Command::Done(Ok(Action::AwaitChange))));
        } else {
            assert!(matches!(last, Command::ReadStatus));
        }
    }
}

#[test]
fn target_deletion_waits_for_absence() {
    let cases: Vec<(Option<Vec<&str>>, bool, Option<Propagation>)> = vec![
        (None, false, Some(Propagation::Foreground)),
        (Some(vec![]), false, Some(Propagation::Foreground)),
        (Some(vec!["example.com/target"]), false, Some(Propagation::Background)),
        (Some(vec!["example.com/target"]), true, None),
    ];
    for (finalizers, deleting, propagation) in cases {
        let mut sync = sync_fixture();
        sync.metadata.finalizers = Some(vec![FINALIZER.into()]);
        sync.metadata.deletion_timestamp = Some(EPOCH);
        let target = TargetMeta {
            deletion_timestamp: if deleting { Some(EPOCH) } else { None },
            finalizers: finalizers.map(|f| f.into_iter().map(String::from).collect()),
        };
        let mut answers = resolved();
        answers.push(Event::TargetFetched(Ok(target)));
        if propagation.is_some() {
            answers.push(Event::TargetDeleted(Ok(())));
        }
        answers.push(Event::WatchesStarted);
        let commands = drive(&sync, answers);
        match propagation {
            Some(p) => {
                assert!(matches!(commands[3], Command::DeleteTarget(q) if q == p));
                assert!(matches!(commands[4], Command::StartWatches));
            },
            None => assert!(matches!(commands[3], Command::StartWatches)),
        }
        assert!(matches!(commands.last().unwrap(), Command::Done(Ok(Action::AwaitChange))));
    }
}

#[test]
fn cleanup_can_skip_target_requests() {
    let mut without_ours = sync_fixture();
    without_ours.metadata.deletion_timestamp = Some(EPOCH);
    without_ours.metadata.finalizers = Some(vec!["example.com/other".into()]);
    let commands = drive(&without_ours, resolved());
    assert!(matches!(commands[2], Command::Done(Ok(Action::AwaitChange))));

    let mut disabled = sync_fixture();
    disabled.metadata.deletion_timestamp = Some(EPOCH);
    disabled.metadata.finalizers = Some(vec![FINALIZER.into()]);
    annotate(&mut disabled, DISABLE_TARGET_DELETION_ANNOTATION, "true");
    let mut answers = resolved();
    answers.push(Event::WatchesStopped);
    answers.push(Event::FinalizersPatched(Ok(())));
    let commands = drive(&disabled, answers);
    assert!(matches!(commands[2], Command::StopWatches));
    assert_eq!(finalizers_of(&commands[3]), Vec::<String>::new());
    assert!(matches!(commands[4], Command::Done(Ok(Action::AwaitChange))));
}

#[test]
fn target_apply_uses_forced_field_manager_and_local_ownership() {
    for (mapped, remote) in [(false, false), (true, false), (false, true), (true, true)] {
        let mut sync = sync_fixture();
        sync.metadata.finalizers = Some(vec![FINALIZER.into()]);
        if mapped {
            sync.spec.mappings = vec![Mapping {
                from_field_path: Some("data.original".into()),
                to_field_path: Some("data.copied".into()),
            }];
        }
        if remote {
            sync.spec.target.cluster = Some(ClusterRef {
                namespace: None,
                kube_config: KubeConfig {
                    secret_ref: SecretRef { name: String::new(), namespace: None, key: String::new() },
                },
            });
        }
        let mut answers = resolved();
        answers.push(Event::SourceFetched(Ok(source_object())));
        answers.push(Event::TargetApplied(Ok(())));
        answers.push(Event::WatchesStarted);
        answers.push(Event::StatusRead(Ok(None)));
        answers.push(Event::StatusWritten(Ok(())));
        let commands = drive(&sync, answers);
        let target = match &commands[3] {
            Command::ApplyTarget(t, field_manager, force) => {
                assert_eq!(field_manager, "sinker.influxdata.io");
                assert!(*force);
                t
            },
            other => panic!("unexpected {:?}", other),
        };
        let data = if mapped { r#"{"data":{"copied":"value"}}"# } else { r#"{"data":{"original":"value"}}"# };
        assert_eq!(target.data.to_text(), data);
        let owner = r#","ownerReferences":[{"apiVersion":"sinker.influxdata.io/v1alpha1","blockOwnerDeletion":true,"controller":false,"kind":"ResourceSync","name":"copy-config","uid":"sync-uid"}]"#;
        let expected = format!(
            r#"{{"name":"target-config","namespace":"team-a"{}}}"#,
            if remote { "" } else { owner }
        );
        assert_eq!(target.metadata.to_text(), expected);
        assert!(matches!(commands[4], Command::StartWatches));
        assert!(matches!(commands[5], Command::ReadStatus));
        assert_eq!(written_condition(&commands[6]).status, "False");
        assert!(matches!(commands[7], Command::Done(Ok(Action::AwaitChange))));
    }
}

#[test]
fn local_targets_need_the_sync_uid() {
    let mut sync = sync_fixture();
    sync.metadata.finalizers = Some(vec![FINALIZER.into()]);
    sync.metadata.uid = None;
    let mut answers = resolved();
    answers.push(Event::SourceFetched(Ok(source_object())));
    let commands = drive(&sync, answers);
    assert!(matches!(commands[3], Command::ReadStatus));
    let (_, command) = step_at(&sync, Stage::ReadingStatus(Err(Error::UIDRequired)), Event::StatusRead(Ok(None)), EPOCH);
    assert_eq!(written_condition(&command).message, "UID is required");
}

#[test]
fn reconciliation_requires_identity_before_api_access() {
    let mut nameless = sync_fixture();
    nameless.metadata.name = None;
    let commands = drive(&nameless, vec![]);
    assert!(matches!(commands[0], Command::Done(Err(Error::NameRequired))));
    assert_eq!(outcome(&Err::<Action, Error>(Error::NameRequired)), Outcome::Error);

    let mut without_namespace = sync_fixture();
    without_namespace.metadata.namespace = None;
    let commands = drive(
        &without_namespace,
        vec![Event::StatusRead(Ok(None)), Event::StatusWritten(Ok(()))],
    );
    assert!(matches!(commands[0], Command::ReadStatus));
    assert_eq!(written_condition(&commands[1]).message, "Namespace is required");
    assert!(matches!(commands[2], Command::Done(Err(Error::NamespaceRequired))));
}

#[test]
fn force_delete_does_not_bypass_target_request_errors() {
    for delete in [false, true] {
        let mut sync = sync_fixture();
        sync.metadata.deletion_timestamp = Some(EPOCH);
        sync.metadata.finalizers = Some(vec![FINALIZER.into()]);
        annotate(&mut sync, FORCE_DELETE_ANNOTATION, "true");
        let mut answers = resolved();
        if delete {
            answers.push(Event::TargetFetched(Ok(TargetMeta { deletion_timestamp: None, finalizers: None })));
            answers.push(Event::TargetDeleted(Err(failure(403))));
        } else {
            answers.push(Event::TargetFetched(Err(failure(403))));
        }
        let commands = drive(&sync, answers);
        assert!(matches!(commands.last().unwrap(), Command::ReadStatus));
        let (_, done) = step_at(
            &sync,
            Stage::WritingStatus(Err(Error::KubeError(failure(403)))),
            Event::StatusWritten(Ok(())),
            EPOCH,
        );
        assert!(matches!(done, Command::Done(Err(Error::KubeError(f))) if f.code == Some(403)));
    }
}

#[test]
fn target_write_failures_are_returned() {
    let mut sync = sync_fixture();
    sync.metadata.finalizers = Some(vec![FINALIZER.into()]);
    let mut answers = resolved();
    answers.push(Event::SourceFetched(Ok(source_object())));
    answers.push(Event::TargetApplied(Err(failure(409))));
    answers.push(Event::StatusRead(Ok(None)));
    answers.push(Event::StatusWritten(Ok(())));
    let commands = drive(&sync, answers);
    assert!(matches!(commands[4], Command::ReadStatus));
    assert!(matches!(&commands[6], Command::Done(Err(Error::KubeError(f))) if f.code == Some(409)));
}

#[test]
fn invalid_mappings_skip_target_write_and_report_failure() {
    let mut sync = sync_fixture();
    sync.metadata.finalizers = Some(vec![FINALIZER.into()]);
    sync.spec.mappings = vec![
        Mapping { from_field_path: Some("data.key".into()), to_field_path: Some("data.copied".into()) },
        Mapping { from_field_path: None, to_field_path: None },
        Mapping { from_field_path: Some("invalid[".into()), to_field_path: Some("data.later".into()) },
    ];
    let mut answers = resolved();
    answers.push(Event::SourceFetched(Ok(source_object())));
    answers.push(Event::StatusRead(Ok(None)));
    answers.push(Event::StatusWritten(Ok(())));
    let commands = drive(&sync, answers);
    assert!(matches!(commands[3], Command::ReadStatus));
    let condition = written_condition(&commands[4]);
    assert_eq!(condition.status, "True");
    assert_eq!(condition.reason, RESOURCE_SYNC_FAILING_CONDITION);
    assert_eq!(condition.message, Error::MappingEmpty.message());
    assert!(matches!(commands[5], Command::Done(Err(Error::MappingEmpty))));
}

#[test]
fn finalizer_patch_errors_are_returned() {
    for deleting in [false, true] {
        let mut sync = sync_fixture();
        sync.metadata.finalizers = Some(vec!["example.com/keep".into()]);
        let mut answers = resolved();
        if deleting {
            sync.metadata.deletion_timestamp = Some(EPOCH);
            sync.metadata.finalizers.as_mut().unwrap().push(FINALIZER.into());
            answers.push(Event::TargetFetched(Err(failure(404))));
            answers.push(Event::WatchesStopped);
        }
        answers.push(Event::FinalizersPatched(Err(failure(409))));
        let commands = drive(&sync, answers);
        let patch = &commands[commands.len() - 2];
        let expected: Vec<String> = if deleting {
            vec!["example.com/keep".into()]
        } else {
            vec!["example.com/keep".into(), FINALIZER.into()]
        };
        assert_eq!(finalizers_of(patch), expected);
        assert!(matches!(commands.last().unwrap(), Command::ReadStatus));
    }
}

#[test]
fn status_api_errors_are_returned() {
    let mut sync = sync_fixture();
    sync.metadata.finalizers = None;
    for write in [false, true] {
        let mut answers = resolved();
        answers.push(Event::FinalizersPatched(Ok(())));
        if write {
            answers.push(Event::StatusRead(Ok(None)));
            answers.push(Event::StatusWritten(Err(failure(403))));
        } else {
            answers.push(Event::StatusRead(Err(failure(403))));
        }
        let commands = drive(&sync, answers);
        assert!(matches!(commands.last().unwrap(), Command::Done(Err(Error::KubeError(f))) if f.code == Some(403)));
    }
}

#[test]
fn unexpected_answers_abort_without_moving() {
    let sync = sync_fixture();
    let (stage, command) = step_at(&sync, Stage::Start, Event::WatchesStarted, EPOCH);
    assert!(matches!(stage, Stage::Start));
    assert!(matches!(command, Command::Abort));
    let (stage, command) = step_at(&sync, Stage::Finished, Event::Start, EPOCH);
    assert!(matches!(stage, Stage::Finished));
    assert!(matches!(command, Command::Abort));
}

#[test]
fn reconcile_status_at_uses_the_given_time_on_flips() {
    let rs = resource_sync(false, None);
    let status = reconcile_status_at(&rs, &status_with_condition("False"), &Err(Error::UIDRequired), LATER);
    assert_eq!(single_condition(status).last_transition_time, LATER);
}
