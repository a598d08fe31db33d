use sinker::error::{Error, KubeFailure};
use sinker::filters::{Filterable, GenerationFilter};
use sinker::objects::{ApiResource, ManagedFieldsEntry, ObjectMeta, Time};
use sinker::resource_extensions::{
    verify_kubeconfig_secret_access, ResolutionEvent, ResolutionRequest, ResolutionStage, Scope,
    Secret,
};
use sinker::resources::{
    ClusterRef, ClusterResourceRef, KubeConfig, ResourceSync, ResourceSyncSpec, SecretRef,
    ALLOWED_NAMESPACES_ANNOTATION, DISABLE_TARGET_DELETION_ANNOTATION, FINALIZER,
    FORCE_DELETE_ANNOTATION, GVKN,
};
use sinker::util::{WithItemAdded, WithItemRemoved};

fn blank_meta() -> ObjectMeta {
    ObjectMeta {
        name: None,
        namespace: None,
        uid: None,
        generation: None,
        resource_version: None,
        deletion_timestamp: None,
        finalizers: None,
        annotations: None,
        managed_fields: None,
    }
}

fn gvkn_of(name: &str) -> GVKN {
    GVKN { api_version: "v1".to_string(), kind: "ConfigMap".to_string(), name: name.to_string() }
}

fn sync_named(name: &str, namespace: &str) -> ResourceSync {
    let mut metadata = blank_meta();
    metadata.name = Some(name.to_string());
    metadata.namespace = Some(namespace.to_string());
    metadata.uid = Some("sync-uid".to_string());
    ResourceSync {
        metadata,
        spec: ResourceSyncSpec {
            source: ClusterResourceRef { resource_ref: gvkn_of("source-config"), cluster: None },
            target: ClusterResourceRef { resource_ref: gvkn_of("target-config"), cluster: None },
            mappings: vec![],
        },
        status: None,
    }
}

fn with_annotations(annotations: Option<Vec<(&str, &str)>>) -> ResourceSync {
    let mut sync = sync_named("copy-config", "team-a");
    sync.metadata.annotations =
        annotations.map(|a| a.into_iter().map(|(k, v)| (k.to_string(), v.to_string())).collect());
    sync
}

fn secret_with_annotation(value: Option<&str>) -> Secret {
    Secret {
        annotations: value.map(|v| vec![(ALLOWED_NAMESPACES_ANNOTATION.to_string(), v.to_string())]),
        data: None,
    }
}

fn remote(namespace: Option<&str>, secret_namespace: Option<&str>) -> ClusterResourceRef {
    ClusterResourceRef {
        resource_ref: GVKN {
            api_version: "sinker.influxdata.io/v1alpha1".to_string(),
            kind: "SinkerContainer".to_string(),
            name: "remote".to_string(),
        },
        cluster: Some(ClusterRef {
            namespace: namespace.map(String::from),
            kube_config: KubeConfig {
                secret_ref: SecretRef {
                    name: "kubeconfig".to_string(),
                    namespace: secret_namespace.map(String::from),
                    key: "value".to_string(),
                },
            },
        }),
    }
}

fn entry(manager: Option<&str>, seconds: Option<i128>) -> ManagedFieldsEntry {
    ManagedFieldsEntry {
        manager: manager.map(String::from),
        time: seconds.map(|s| Time { nanosecond: s * 1_000_000_000 }),
    }
}

#[test]
fn with_push_appends_without_deduplicating() {
    assert_eq!(
        Vec::new().with_push("first").with_push("second").with_push("first"),
        vec!["first", "second", "first"]
    );
}

#[test]
fn removing_items_preserves_other_items_and_order() {
    let cases: Vec<(Vec<&str>, Vec<&str>)> = vec![
        (vec![], vec![]),
        (vec!["first", "last"], vec!["first", "last"]),
        (vec!["remove", "first", "remove", "last"], vec!["first", "last"]),
        (vec!["remove"], vec![]),
    ];
    for (input, expected) in cases {
        let input: Vec<String> = input.into_iter().map(String::from).collect();
        let expected: Vec<String> = expected.into_iter().map(String::from).collect();
        assert_eq!(input.with_item_removed(&"remove".to_string()), expected);
    }
}

#[test]
fn annotation_options_read_true_only() {
    let cases: Vec<(Option<Vec<(&str, &str)>>, bool)> = vec![
        (None, false),
        (Some(vec![]), false),
        (Some(vec![("x", "false")]), false),
        (Some(vec![("x", "other")]), false),
        (Some(vec![("x", "true")]), true),
    ];
    for (annotations, expected) in cases {
        for key in [FORCE_DELETE_ANNOTATION, DISABLE_TARGET_DELETION_ANNOTATION] {
            let annotations = annotations
                .clone()
                .map(|a| a.into_iter().map(|(_, v)| (key, v)).collect::<Vec<_>>());
            let sync = with_annotations(annotations);
            assert_eq!(sync.get_boolean_annotation_val(key), expected);
            if key == FORCE_DELETE_ANNOTATION {
                assert_eq!(sync.has_force_delete_option_enabled(), expected);
                assert!(!sync.has_disable_target_deletion_option_enabled());
            } else {
                assert_eq!(sync.has_disable_target_deletion_option_enabled(), expected);
                assert!(!sync.has_force_delete_option_enabled());
            }
        }
    }
}

#[test]
fn finalizer_helpers() {
    let mut sync = sync_named("copy-config", "team-a");
    assert!(!sync.has_target_finalizer());
    assert!(sync.finalizers_clone_or_empty().is_empty());
    sync.metadata.finalizers = Some(vec!["a".into(), FINALIZER.into()]);
    assert!(sync.has_target_finalizer());
    assert_eq!(sync.finalizers_clone_or_empty(), vec!["a".to_string(), FINALIZER.to_string()]);
    assert!(!sync.has_been_deleted());
    sync.metadata.deletion_timestamp = Some(Time { nanosecond: 0 });
    assert!(sync.has_been_deleted());
}

#[test]
fn generation_filter_preserves_history_across_metadata_and_uid_changes() {
    let mut filter = GenerationFilter::new();
    let mut resource = sync_named("copy-config", "team-a");
    resource.metadata.generation = Some(1);
    assert!(filter.changed(&resource));
    assert!(!filter.changed(&resource));

    resource.metadata.resource_version = Some("2".into());
    resource.metadata.annotations = Some(vec![("updated".into(), "true".into())]);
    assert!(!filter.changed(&resource));
    resource.metadata.uid = Some("replacement-uid".into());
    assert!(!filter.changed(&resource));

    resource.metadata.generation = None;
    assert!(filter.changed(&resource));
    assert!(filter.changed(&resource));
    resource.metadata.generation = Some(1);
    assert!(!filter.changed(&resource), "missing generations do not erase history");
    resource.metadata.generation = Some(2);
    assert!(filter.changed(&resource));
    assert!(!filter.changed(&resource));
    resource.metadata.generation = Some(1);
    assert!(filter.changed(&resource), "any generation change is emitted");
}

#[test]
fn generation_filter_tracks_names_and_namespaces_independently() {
    for (name, namespace) in [("other", "default"), ("copy-config", "other")] {
        let mut filter = GenerationFilter::new();
        let mut original = sync_named("copy-config", "default");
        original.metadata.generation = Some(1);
        let mut other = sync_named(name, namespace);
        other.metadata.generation = Some(1);
        assert!(filter.changed(&original));
        assert!(filter.changed(&other));
        assert!(!filter.changed(&original));
        assert!(!filter.changed(&other));
    }
}

#[test]
fn test_was_last_modified_by() {
    let manager = "sinker.influxdata.io";
    let cases: Vec<(Option<Vec<ManagedFieldsEntry>>, Option<bool>)> = vec![
        (None, None),
        (Some(vec![]), None),
        (Some(vec![entry(Some(manager), Some(1_700_000_000)), entry(Some("external-manager"), Some(0))]), Some(true)),
        (Some(vec![entry(Some("external-manager"), Some(1_700_000_000)), entry(Some(manager), Some(0))]), Some(false)),
        (Some(vec![entry(Some(manager), Some(1_700_000_000)), entry(Some("external-manager"), None)]), None),
    ];
    for (fields, expected) in cases {
        let mut meta = blank_meta();
        meta.managed_fields = fields;
        assert_eq!(meta.was_last_modified_by(manager), expected);
    }
}

#[test]
fn latest_entry_wins_regardless_of_position() {
    for (latest_manager, expected) in [(None, Some(false)), (Some("sinker.influxdata.io"), Some(true)), (Some("external"), Some(false))] {
        let old = entry(Some("sinker.influxdata.io"), Some(0));
        let current = entry(latest_manager, Some(1_700_000_000));
        let orders = vec![
            vec![entry(Some("sinker.influxdata.io"), Some(0)), entry(latest_manager, Some(1_700_000_000))],
            vec![current, old],
        ];
        for entries in orders {
            let mut meta = blank_meta();
            meta.managed_fields = Some(entries);
            assert_eq!(meta.was_last_modified_by("sinker.influxdata.io"), expected);
        }
    }
    let ties = vec![entry(Some("external"), Some(5)), entry(Some("sinker.influxdata.io"), Some(5))];
    let mut meta = blank_meta();
    meta.managed_fields = Some(ties);
    assert_eq!(meta.was_last_modified_by("sinker.influxdata.io"), Some(true));
}

#[test]
fn errs_when_annotation_missing() {
    let res = verify_kubeconfig_secret_access("dev", &secret_with_annotation(None));
    assert!(matches!(res, Err(Error::UnauthorizedKubeconfigAccess())));
}

#[test]
fn errs_when_annotation_key_absent() {
    let sec = Secret { annotations: Some(vec![("other-annotation".into(), "^.*$".into())]), data: None };
    assert!(matches!(
        verify_kubeconfig_secret_access("ns1", &sec),
        Err(Error::UnauthorizedKubeconfigAccess())
    ));
}

#[test]
fn errs_on_invalid_regex() {
    for pattern in ["(", "\\"] {
        let res = verify_kubeconfig_secret_access("random", &secret_with_annotation(Some(pattern)));
        assert!(matches!(res, Err(Error::UnauthorizedKubeconfigAccess())));
    }
}

#[test]
fn allowed_namespaces_are_matched_by_the_pattern() {
    let allow = secret_with_annotation(Some("^ns-[a-z0-9]{4}$"));
    for ns in ["ns-abcd", "ns-0a9z", "ns-zzzz"] {
        assert!(verify_kubeconfig_secret_access(ns, &allow).is_ok(), "{} should match", ns);
    }
    let deny = secret_with_annotation(Some("^team-[0-9]{2}$"));
    for ns in ["proj-10", "team-1", "team-123", "xteam-12"] {
        assert!(matches!(
            verify_kubeconfig_secret_access(ns, &deny),
            Err(Error::UnauthorizedKubeconfigAccess())
        ));
    }
    let unanchored = secret_with_annotation(Some("team"));
    assert!(verify_kubeconfig_secret_access("my-team-a", &unanchored).is_ok());
}

fn discovered(namespaced: bool) -> ResolutionEvent {
    ResolutionEvent::Discovered(Ok((
        ApiResource {
            group: "sinker.influxdata.io".into(),
            version: "v1alpha1".into(),
            api_version: "sinker.influxdata.io/v1alpha1".into(),
            kind: "SinkerContainer".into(),
            plural: "sinkercontainers".into(),
        },
        if namespaced { Scope::Namespaced } else { Scope::Cluster },
    )))
}

#[test]
fn local_resolution_discovers_in_the_sync_namespace() {
    let local = ClusterResourceRef { resource_ref: gvkn_of("x"), cluster: None };
    let (stage, request) = local.resolution_step("team-a", ResolutionStage::Start, ResolutionEvent::Start);
    match &request {
        ResolutionRequest::Discover(gvk) => {
            assert_eq!((gvk.group.as_str(), gvk.version.as_str(), gvk.kind.as_str()), ("", "v1", "ConfigMap"))
        },
        other => panic!("unexpected {:?}", other),
    }
    let (_, done) = local.resolution_step("team-a", stage, discovered(true));
    match done {
        ResolutionRequest::Done(Ok(api)) => assert_eq!(api.namespace.as_deref(), Some("team-a")),
        other => panic!("unexpected {:?}", other),
    }
    let (_, done) = local.resolution_step("team-a", ResolutionStage::Discovering, discovered(false));
    assert!(matches!(done, ResolutionRequest::Done(Ok(api)) if api.namespace.is_none()));
}

#[test]
fn remote_resolution_reads_the_kubeconfig_secret() {
    let r = remote(Some("remote-ns"), None);
    let (stage, request) = r.resolution_step("team-a", ResolutionStage::Start, ResolutionEvent::Start);
    assert!(matches!(&request, ResolutionRequest::ReadSecret(ns, name) if ns == "team-a" && name == "kubeconfig"));
    let secret = Secret { annotations: None, data: Some(vec![("value".into(), b"kind: Config".to_vec())]) };
    let (stage, request) = r.resolution_step("team-a", stage, ResolutionEvent::SecretRead(Ok(secret)));
    match &request {
        ResolutionRequest::Connect(text, ns) => {
            assert_eq!(text, "kind: Config");
            assert_eq!(ns.as_deref(), Some("remote-ns"));
        },
        other => panic!("unexpected {:?}", other),
    }
    let (stage, request) = r.resolution_step("team-a", stage, ResolutionEvent::Connected(Ok(())));
    assert!(matches!(&request, ResolutionRequest::Discover(gvk) if gvk.group == "sinker.influxdata.io" && gvk.version == "v1alpha1"));
    let (_, done) = r.resolution_step("team-a", stage, discovered(true));
    match done {
        ResolutionRequest::Done(Ok(api)) => {
            assert_eq!(api.namespace.as_deref(), Some("remote-ns"));
            assert_eq!(api.ar.group, "sinker.influxdata.io");
            assert_eq!(api.ar.version, "v1alpha1");
            assert_eq!(api.ar.plural, "sinkercontainers");
        },
        other => panic!("unexpected {:?}", other),
    }
}

#[test]
fn kubeconfig_secrets_must_hold_utf8_yaml_kubeconfigs() {
    let r = remote(None, None);
    let not_utf8 = Secret { annotations: None, data: Some(vec![("value".into(), vec![0xff, 0xfe])]) };
    let (_, done) = r.resolution_step(
        "team-a",
        ResolutionStage::ReadingSecret("team-a".into()),
        ResolutionEvent::SecretRead(Ok(not_utf8)),
    );
    match done {
        ResolutionRequest::Done(Err(Error::KubeconfigUtf8Error(m))) => {
            assert_eq!(m, "invalid utf-8 sequence of 1 bytes from index 0")
        },
        other => panic!("unexpected {:?}", other),
    }
    let not_yaml = Secret { annotations: None, data: Some(vec![("value".into(), b"clusters: [".to_vec())]) };
    let (_, done) = r.resolution_step(
        "team-a",
        ResolutionStage::ReadingSecret("team-a".into()),
        ResolutionEvent::SecretRead(Ok(not_yaml)),
    );
    assert!(matches!(done, ResolutionRequest::Done(Err(Error::KubeconfigError(_)))));
    let text = sinker::resource_extensions::kubeconfig_text(b"kind: Config\ncurrent-context: dev").unwrap();
    assert_eq!(text, "kind: Config\ncurrent-context: dev");
    assert!(matches!(
        sinker::resource_extensions::kubeconfig_text(b"clusters: ["),
        Err(Error::KubeconfigError(_))
    ));
}

#[test]
fn remote_resolution_guards_secrets_of_other_namespaces() {
    let r = remote(None, Some("secrets"));
    let (stage, request) = r.resolution_step("team-a", ResolutionStage::Start, ResolutionEvent::Start);
    assert!(matches!(&request, ResolutionRequest::ReadSecret(ns, _) if ns == "secrets"));
    let failure = KubeFailure { code: Some(403), message: "forbidden".into() };
    let (_, done) = r.resolution_step("team-a", stage, ResolutionEvent::SecretRead(Err(failure)));
    assert!(matches!(done, ResolutionRequest::Done(Err(Error::UnauthorizedKubeconfigAccess()))));

    let unannotated = Secret { annotations: None, data: Some(vec![]) };
    let (_, done) = r.resolution_step(
        "team-a",
        ResolutionStage::ReadingSecret("secrets".into()),
        ResolutionEvent::SecretRead(Ok(unannotated)),
    );
    assert!(matches!(done, ResolutionRequest::Done(Err(Error::UnauthorizedKubeconfigAccess()))));

    let allowed = Secret {
        annotations: Some(vec![(ALLOWED_NAMESPACES_ANNOTATION.into(), "^team-".into())]),
        data: Some(vec![("other".into(), vec![])]),
    };
    let (_, done) = r.resolution_step(
        "team-a",
        ResolutionStage::ReadingSecret("secrets".into()),
        ResolutionEvent::SecretRead(Ok(allowed)),
    );
    match done {
        ResolutionRequest::Done(Err(e)) => {
            assert!(matches!(&e, Error::MissingKeyError(k, n, ns) if k == "value" && n == "kubeconfig" && ns == "secrets"));
            assert_eq!(e.message(), "referenced key 'value' does not exist in secret 'value' in namespace 'value'");
        },
        other => panic!("unexpected {:?}", other),
    }

    let local_secret = remote(None, None);
    let failure = KubeFailure { code: Some(404), message: "not found".into() };
    let (_, done) = local_secret.resolution_step(
        "team-a",
        ResolutionStage::ReadingSecret("team-a".into()),
        ResolutionEvent::SecretRead(Err(failure)),
    );
    assert!(matches!(done, ResolutionRequest::Done(Err(Error::KubeError(f))) if f.code == Some(404)));
}

#[test]
fn remote_watcher_keys_identify_object_and_sync() {
    let sync = sync_named("copy-config", "team-a");
    let key = sync.spec.source.remote_watcher_key(&sync);
    let again = sync.spec.source.remote_watcher_key(&sync);
    let target = sync.spec.target.remote_watcher_key(&sync);
    assert!(key.same_as(&again));
    assert!(!key.same_as(&target));
    assert_eq!(key.resource_sync.name, "copy-config");
    assert_eq!(key.resource_sync.namespace.as_deref(), Some("team-a"));
}
