use sinker::error::{AddToPathError, Error};
use sinker::json::Json;
use sinker::mapping::{
    apply_mappings, cleanup_annotations, cleanup_subtree, clone_resource, convert_metadata,
    find_field_path, get_ar_from_subtree, normalize_metadata, object_to_json, set_field_path,
    try_apply_mappings,
};
use sinker::objects::{ApiResource, DynamicObject, ObjectMeta, TypeMeta};
use sinker::resources::{
    ClusterResourceRef, Mapping, ResourceSync, ResourceSyncSpec, GVKN,
};

fn json_of(value: &serde_json::Value) -> Json {
    match value {
        serde_json::Value::Null => Json::Null,
        serde_json::Value::Bool(b) => Json::Bool(*b),
        serde_json::Value::Number(n) => Json::Number(n.to_string()),
        serde_json::Value::String(s) => Json::String(s.clone()),
        serde_json::Value::Array(items) => Json::Array(items.iter().map(json_of).collect()),
        serde_json::Value::Object(members) => Json::Object(
            members
                .iter()
                .map(|(k, v)| (k.clone(), json_of(v)))
                .collect(),
        ),
    }
}

fn parse(text: &str) -> Json {
    json_of(&serde_json::from_str::<serde_json::Value>(text).expect("valid JSON"))
}

/// The text `serde_json` writes for a JSON document, keeping the order of its members.
fn canonical(text: &str) -> String {
    serde_json::to_string(&serde_json::from_str::<serde_json::Value>(text).expect("valid JSON"))
        .expect("serializable")
}

/// An object as it reads from the API: through `kube`'s dynamic object.
fn dynamic(text: &str) -> DynamicObject {
    let object: kube::api::DynamicObject = serde_json::from_str(text).expect("dynamic object");
    DynamicObject {
        types: object.types.map(|t| TypeMeta { api_version: t.api_version, kind: t.kind }),
        metadata: json_of(&serde_json::to_value(&object.metadata).expect("metadata")),
        data: json_of(&object.data),
    }
}

fn text_of(object: &DynamicObject) -> String {
    object_to_json(object).to_text()
}

fn api_resource(group: &str, version: &str, kind: &str) -> ApiResource {
    let api_version = if group.is_empty() {
        version.to_string()
    } else {
        format!("{}/{}", group, version)
    };
    ApiResource {
        group: group.to_string(),
        version: version.to_string(),
        api_version,
        kind: kind.to_string(),
        plural: format!("{}s", kind.to_lowercase()),
    }
}

fn gvkn(api_version: &str, kind: &str, name: &str) -> GVKN {
    GVKN { api_version: api_version.to_string(), kind: kind.to_string(), name: name.to_string() }
}

fn empty_meta(name: &str) -> ObjectMeta {
    ObjectMeta {
        name: Some(name.to_string()),
        namespace: None,
        uid: None,
        generation: None,
        resource_version: None,
        deletion_timestamp: None,
        finalizers: None,
        annotations: None,
        managed_fields: None,
    }
}

fn sync_with(mappings: Vec<Mapping>, source: GVKN, target: GVKN) -> ResourceSync {
    ResourceSync {
        metadata: empty_meta("sinker-test"),
        spec: ResourceSyncSpec {
            source: ClusterResourceRef { resource_ref: source, cluster: None },
            target: ClusterResourceRef { resource_ref: target, cluster: None },
            mappings,
        },
        status: None,
    }
}

fn mapping(from: Option<&str>, to: Option<&str>) -> Mapping {
    Mapping { from_field_path: from.map(String::from), to_field_path: to.map(String::from) }
}

fn add_to_path(path: &str) -> String {
    let mut root = parse(r#"{ "spec": {}, "status": {"keep": 1} }"#);
    set_field_path(&mut root, path, Json::String("demo".to_string())).unwrap();
    root.to_text()
}

#[test]
fn test_add_to_path_leaf() {
    assert_eq!(add_to_path("status"), r#"{"spec":{},"status":"demo"}"#);
}

#[test]
fn test_add_to_path_nested() {
    assert_eq!(add_to_path("status.foo"), r#"{"spec":{},"status":{"keep":1,"foo":"demo"}}"#);
}

#[test]
fn test_add_to_path_created_intermediate() {
    assert_eq!(
        add_to_path("status.foo.bar"),
        r#"{"spec":{},"status":{"keep":1,"foo":{"bar":"demo"}}}"#
    );
}

#[test]
fn set_field_path_requires_objects_on_the_way() {
    let mut root = parse(r#"{"spec": "text"}"#);
    let before = root.to_text();
    match set_field_path(&mut root, "spec.inner", Json::Bool(true)) {
        Err(AddToPathError::ObjectRequired(copy)) => assert_eq!(copy.to_text(), before),
        Ok(()) => panic!("writing below a string must fail"),
    }
    assert_eq!(root.to_text(), before);
    let mut scalar = Json::Number("1".to_string());
    assert!(set_field_path(&mut scalar, "a", Json::Null).is_err());
}

#[test]
fn object_required_message_shows_the_root() {
    let error = Error::AddToPathError(AddToPathError::ObjectRequired(parse(r#"{"a":[1,"x"]}"#)));
    assert_eq!(error.message(), r#"Value for field {"a":[1,"x"]} must be an object"#);
}

#[test]
fn test_get_ar_from_subtree() {
    let subtree = parse(
        r#"{"apiVersion": "sinker.influxdata.io/v1alpha1", "kind": "SinkerContainer",
            "metadata": { "name": "test-sinker-container" },
            "spec": { "dummykey": "dummyvalue" }}"#,
    );
    let ar = get_ar_from_subtree(&subtree).unwrap();
    assert_eq!(ar.group, "sinker.influxdata.io");
    assert_eq!(ar.version, "v1alpha1");
    assert_eq!(ar.kind, "SinkerContainer");
    assert_eq!(ar.api_version, "sinker.influxdata.io/v1alpha1");
}

#[test]
fn test_get_ar_from_subtree_nogroup() {
    let subtree = parse(
        r#"{"apiVersion": "v1", "kind": "ConfigMap",
            "metadata": { "name": "test-config-map-1" },
            "data": { "dummykey": "dummyvalue" }}"#,
    );
    let ar = get_ar_from_subtree(&subtree).unwrap();
    assert_eq!(ar.group, "");
    assert_eq!(ar.version, "v1");
    assert_eq!(ar.kind, "ConfigMap");
    assert_eq!(ar.api_version, "v1");
    assert_eq!(ar.plural, "configmaps");
}

#[test]
fn get_ar_from_subtree_reports_malformed_resources() {
    let no_version = parse(r#"{"kind": "ConfigMap"}"#);
    match get_ar_from_subtree(&no_version) {
        Err(Error::MalformedInnerResource(m)) => assert_eq!(m, "failed to parse apiVersion"),
        other => panic!("unexpected {:?}", other),
    }
    let no_kind = parse(r#"{"apiVersion": "v1", "kind": 3}"#);
    match get_ar_from_subtree(&no_kind) {
        Err(Error::MalformedInnerResource(m)) => assert_eq!(m, "failed to parse kind"),
        other => panic!("unexpected {:?}", other),
    }
    let deep = parse(r#"{"apiVersion": "a/b/c", "kind": "K"}"#);
    let ar = get_ar_from_subtree(&deep).unwrap();
    assert_eq!((ar.group.as_str(), ar.version.as_str()), ("b", "c"));
}

#[test]
fn test_clone_resource() {
    let sync = sync_with(
        vec![],
        gvkn("v1", "ConfigMap", "test-configmap-1"),
        gvkn("v1", "ConfigMap", "test-configmap-2"),
    );
    let source = dynamic(
        r#"{"apiVersion": "v1", "kind": "ConfigMap",
            "metadata": { "name": "test-configmap-1" },
            "data": { "dummykey": "dummyvalue" }}"#,
    );
    let expected = r#"{"apiVersion": "v1", "kind": "ConfigMap",
        "metadata": { "name": "test-configmap-2", "namespace": "default" },
        "data": { "dummykey": "dummyvalue" }}"#;
    let ar = api_resource("", "v1", "ConfigMap");
    let target = clone_resource(&source, &sync.spec.target.resource_ref, Some("default"), &ar).unwrap();
    assert_eq!(text_of(&target), canonical(expected));
}

#[test]
fn test_clone_resource_cluster_scoped() {
    let sync = sync_with(
        vec![],
        gvkn("rbac.authorization.k8s.io/v1", "ClusterRole", "test-clusterrole-1"),
        gvkn("rbac.authorization.k8s.io/v1", "ClusterRole", "test-clusterrole-2"),
    );
    let source = dynamic(
        r#"{"apiVersion": "rbac.authorization.k8s.io/v1", "kind": "ClusterRole",
            "metadata": { "name": "test-clusterrole-1" }, "rules": []}"#,
    );
    let expected = r#"{"apiVersion": "rbac.authorization.k8s.io/v1", "kind": "ClusterRole",
        "metadata": { "name": "test-clusterrole-2", "namespace": "default" }, "rules": []}"#;
    let ar = api_resource("rbac.authorization.k8s.io", "v1", "ClusterRole");
    let target = clone_resource(&source, &sync.spec.target.resource_ref, Some("default"), &ar).unwrap();
    assert_eq!(text_of(&target), canonical(expected));
}

#[test]
fn clone_keeps_labels_and_drops_last_applied_configuration() {
    let source = dynamic(
        r#"{"apiVersion": "v1", "kind": "ConfigMap",
            "metadata": { "name": "a", "namespace": "src",
                "annotations": {"kubectl.kubernetes.io/last-applied-configuration": "{}", "keep": "me"},
                "labels": {"app": "demo"}, "uid": "source-uid"},
            "data": {"k": "v"}}"#,
    );
    let ar = api_resource("", "v1", "ConfigMap");
    let target = clone_resource(&source, &gvkn("v1", "ConfigMap", "b"), None, &ar).unwrap();
    assert_eq!(
        text_of(&target),
        r#"{"apiVersion":"v1","kind":"ConfigMap","metadata":{"annotations":{"keep":"me"},"labels":{"app":"demo"},"name":"b"},"data":{"k":"v"}}"#
    );
}

#[test]
fn test_apply_mappings() {
    let sync = sync_with(
        vec![mapping(Some("spec.subtree1"), Some("spec.subtree2"))],
        gvkn("sinker.influxdata.io/v1alpha1", "SinkerContainer", "test-sinker-container-1"),
        gvkn("sinker.influxdata.io/v1alpha1", "SinkerContainer", "test-sinker-container-2"),
    );
    let source = dynamic(
        r#"{"apiVersion": "sinker.influxdata.io/v1alpha1", "kind": "SinkerContainer",
            "metadata": { "name": "test-sinker-container-1" },
            "spec": { "subtree1": { "key": "value" } }}"#,
    );
    let expected = r#"{"apiVersion": "sinker.influxdata.io/v1alpha1", "kind": "SinkerContainer",
        "metadata": { "name": "test-sinker-container-2", "namespace": "default" },
        "spec": { "subtree2": { "key": "value" } }}"#;
    let ar = api_resource("sinker.influxdata.io", "v1alpha1", "SinkerContainer");
    let target =
        apply_mappings(&source, &sync.spec.target.resource_ref, Some("default"), &ar, &sync).unwrap();
    assert_eq!(text_of(&target), canonical(expected));
}

#[test]
fn test_apply_mappings_to_metadata() {
    let sync = sync_with(
        vec![
            mapping(Some("spec.subtree1"), Some("spec.subtree2")),
            mapping(Some("metadata.labels"), Some("metadata.labels")),
        ],
        gvkn("sinker.influxdata.io/v1alpha1", "SinkerContainer", "test-sinker-container-1"),
        gvkn("sinker.influxdata.io/v1alpha1", "SinkerContainer", "test-sinker-container-2"),
    );
    let source = dynamic(
        r#"{"apiVersion": "sinker.influxdata.io/v1alpha1", "kind": "SinkerContainer",
            "metadata": { "labels": { "key": "value" }, "name": "test-sinker-container-1" },
            "spec": { "subtree1": { "key": "value" } }}"#,
    );
    let expected = r#"{"apiVersion": "sinker.influxdata.io/v1alpha1", "kind": "SinkerContainer",
        "metadata": { "labels": { "key": "value" }, "name": "test-sinker-container-2",
            "namespace": "default" },
        "spec": { "subtree2": { "key": "value" } }}"#;
    let ar = api_resource("sinker.influxdata.io", "v1alpha1", "SinkerContainer");
    let target =
        apply_mappings(&source, &sync.spec.target.resource_ref, Some("default"), &ar, &sync).unwrap();
    assert_eq!(text_of(&target), canonical(expected));
}

#[test]
fn test_apply_mappings_from_sinkercontainer() {
    let sync = sync_with(
        vec![mapping(Some("spec"), None)],
        gvkn("sinker.influxdata.io/v1alpha1", "SinkerContainer", "test-sinker-container"),
        gvkn("v1", "ConfigMap", "test-config-map-2"),
    );
    let ar = api_resource("", "v1", "ConfigMap");
    let expected = r#"{"apiVersion": "v1", "kind": "ConfigMap",
        "metadata": { "annotations": { "key1": "value1" }, "labels": { "key2": "value2" },
            "name": "test-config-map-2", "namespace": "default" },
        "data": { "dummykey": "dummyvalue" }}"#;
    let source = dynamic(
        r#"{"apiVersion": "sinker.influxdata.io/v1alpha1", "kind": "SinkerContainer",
            "metadata": { "name": "test-sinker-container" },
            "spec": { "apiVersion": "v1", "kind": "ConfigMap",
                "metadata": { "annotations": { "key1": "value1" }, "labels": { "key2": "value2" },
                    "name": "test-config-map-1" },
                "data": { "dummykey": "dummyvalue" } }}"#,
    );
    let target =
        apply_mappings(&source, &sync.spec.target.resource_ref, Some("default"), &ar, &sync).unwrap();
    assert_eq!(text_of(&target), canonical(expected));
}

#[test]
fn test_apply_mappings_from_sinkercontainer_clusterscoped() {
    let sync = sync_with(
        vec![mapping(Some("spec"), None)],
        gvkn("sinker.influxdata.io/v1alpha1", "SinkerContainer", "test-sinker-container"),
        gvkn("rbac.authorization.k8s.io/v1", "ClusterRole", "test-clusterrole"),
    );
    let ar = api_resource("rbac.authorization.k8s.io", "v1", "ClusterRole");
    let expected = r#"{"apiVersion": "rbac.authorization.k8s.io/v1", "kind": "ClusterRole",
        "metadata": { "name": "test-clusterrole", "namespace": "default" }, "rules": []}"#;
    let source = dynamic(
        r#"{"apiVersion": "sinker.influxdata.io/v1alpha1", "kind": "SinkerContainer",
            "metadata": { "name": "test-sinker-container" },
            "spec": { "apiVersion": "rbac.authorization.k8s.io/v1", "kind": "ClusterRole",
                "metadata": { "name": "test-clusterrole" }, "rules": [] }}"#,
    );
    let target =
        apply_mappings(&source, &sync.spec.target.resource_ref, Some("default"), &ar, &sync).unwrap();
    assert_eq!(text_of(&target), canonical(expected));
}

#[test]
fn test_apply_mappings_to_sinkercontainer() {
    let sync = sync_with(
        vec![mapping(None, Some("spec"))],
        gvkn("v1", "Deployment", "test-deployment"),
        gvkn("sinker.influxdata.io/v1alpha1", "SinkerContainer", "test-sinker-container"),
    );
    let ar = api_resource("sinker.influxdata.io", "v1alpha1", "SinkerContainer");
    let source_dep = r#"{"apiVersion": "v1", "kind": "Deployment",
        "metadata": { "annotations": { "key1": "value1" }, "labels": { "key2": "value2" },
            "name": "test-deployment", "namespace": "default" },
        "spec": { "dummykey": "dummyvalue" }, "status": { "isgood": true }}"#;
    let expected = format!(
        r#"{{"apiVersion": "sinker.influxdata.io/v1alpha1", "kind": "SinkerContainer",
            "metadata": {{ "name": "test-sinker-container", "namespace": "default" }},
            "spec": {}}}"#,
        source_dep
    );
    let source = dynamic(source_dep);
    let target =
        apply_mappings(&source, &sync.spec.target.resource_ref, Some("default"), &ar, &sync).unwrap();
    assert_eq!(text_of(&target), canonical(&expected));
}

#[test]
fn mappings_fail_on_the_first_bad_mapping() {
    let source = dynamic(
        r#"{"apiVersion": "v1", "kind": "ConfigMap", "metadata": {"name": "s"},
            "data": {"key": "value"}}"#,
    );
    let ar = api_resource("", "v1", "ConfigMap");
    let empty = sync_with(
        vec![mapping(Some("data.key"), Some("data.copied")), mapping(None, None), mapping(Some("invalid["), Some("data.later"))],
        gvkn("v1", "ConfigMap", "s"),
        gvkn("v1", "ConfigMap", "t"),
    );
    match apply_mappings(&source, &empty.spec.target.resource_ref, None, &ar, &empty) {
        Err(Error::MappingEmpty) => {},
        other => panic!("unexpected {:?}", other),
    }
    let bad_path = sync_with(
        vec![mapping(Some("invalid["), Some("data.later"))],
        gvkn("v1", "ConfigMap", "s"),
        gvkn("v1", "ConfigMap", "t"),
    );
    match apply_mappings(&source, &bad_path.spec.target.resource_ref, None, &ar, &bad_path) {
        Err(Error::JsonPathError(_)) => {},
        other => panic!("unexpected {:?}", other),
    }
    let into_string = sync_with(
        vec![mapping(Some("data.key"), Some("data")), mapping(Some("data.key"), Some("data.inner"))],
        gvkn("v1", "ConfigMap", "s"),
        gvkn("v1", "ConfigMap", "t"),
    );
    match apply_mappings(&source, &into_string.spec.target.resource_ref, None, &ar, &into_string) {
        Err(Error::AddToPathError(AddToPathError::ObjectRequired(root))) => {
            assert_eq!(root.to_text(), r#"{"data":"value"}"#)
        },
        other => panic!("unexpected {:?}", other),
    }
}

#[test]
fn find_field_path_selects_one_node() {
    let source = dynamic(
        r#"{"apiVersion": "v1", "kind": "ConfigMap", "metadata": {"name": "s"},
            "data": {"a": "1", "b": "2"}}"#,
    );
    assert_eq!(
        find_field_path(&source, &Some("data.a".to_string())).unwrap().to_text(),
        r#""1""#
    );
    assert_eq!(find_field_path(&source, &Some("data.missing".to_string())).unwrap().to_text(), "null");
    assert_eq!(
        find_field_path(&source, &Some(String::new())).unwrap().to_text(),
        text_of(&source)
    );
    match find_field_path(&source, &Some("data.*".to_string())) {
        Err(Error::JsonPathExactlyOneValue(p)) => assert_eq!(p, "$.data.*"),
        other => panic!("unexpected {:?}", other),
    }
}

#[test]
fn metadata_mappings_read_back_through_object_meta() {
    let source = dynamic(
        r#"{"apiVersion": "v1", "kind": "ConfigMap", "metadata": {"name": "s"},
            "data": {"labels": {"z": "1", "a": "2"}, "number": 3}}"#,
    );
    let ar = api_resource("", "v1", "ConfigMap");
    let labels = sync_with(
        vec![mapping(Some("data.labels"), Some("metadata.labels"))],
        gvkn("v1", "ConfigMap", "s"),
        gvkn("v1", "ConfigMap", "t"),
    );
    let target = apply_mappings(&source, &labels.spec.target.resource_ref, Some("ns"), &ar, &labels).unwrap();
    assert_eq!(
        target.metadata.to_text(),
        r#"{"labels":{"a":"2","z":"1"},"name":"t","namespace":"ns"}"#
    );
    let bad = sync_with(
        vec![mapping(Some("data.number"), Some("metadata.labels"))],
        gvkn("v1", "ConfigMap", "s"),
        gvkn("v1", "ConfigMap", "t"),
    );
    match apply_mappings(&source, &bad.spec.target.resource_ref, Some("ns"), &ar, &bad) {
        Err(Error::SerializationError(_)) => {},
        other => panic!("unexpected {:?}", other),
    }
}

#[test]
fn inner_resources_with_non_string_labels_are_refused() {
    let source = dynamic(
        r#"{"apiVersion": "v1", "kind": "ConfigMap", "metadata": {"name": "s"},
            "data": {"inner": {"apiVersion": "v1", "kind": "Secret",
                "metadata": {"labels": {"n": 1}}}}}"#,
    );
    let ar = api_resource("", "v1", "ConfigMap");
    let sync = sync_with(
        vec![mapping(Some("data.inner"), None)],
        gvkn("v1", "ConfigMap", "s"),
        gvkn("v1", "ConfigMap", "t"),
    );
    assert!(try_apply_mappings(&source, &sync.spec.target.resource_ref, None, &ar, &sync).is_none());
}

#[test]
fn metadata_helpers_keep_what_object_meta_keeps() {
    let annotations = match parse(
        r#"{"a": "1", "kubectl.kubernetes.io/last-applied-configuration": "x", "b": "2"}"#,
    ) {
        Json::Object(entries) => entries,
        _ => unreachable!(),
    };
    assert_eq!(
        Json::Object(cleanup_annotations(annotations)).to_text(),
        r#"{"a":"1","b":"2"}"#
    );
    let converted = convert_metadata(&parse(
        r#"{"name": "n", "labels": {"y": "2", "x": "1"}, "annotations": {"k": "v"}}"#,
    ));
    assert_eq!(converted.to_text(), r#"{"annotations":{"k":"v"},"labels":{"x":"1","y":"2"}}"#);
    let mut subtree = parse(r#"{"apiVersion": "v1", "kind": "K", "metadata": {}, "a": 1, "b": 2}"#);
    cleanup_subtree(&mut subtree);
    assert_eq!(subtree.to_text(), r#"{"b":2,"a":1}"#);
    let normalized = normalize_metadata(&parse(
        r#"{"uid": "u", "unknown": 1, "labels": null, "name": "n"}"#,
    ));
    assert_eq!(normalized.to_text(), r#"{"name":"n","uid":"u"}"#);
}

#[test]
fn inner_resources_of_one_letter_y_kinds_are_refused() {
    let source = dynamic(
        r#"{"apiVersion": "v1", "kind": "ConfigMap", "metadata": {"name": "s"},
            "data": {"inner": {"apiVersion": "example.com/v1", "kind": "Y", "metadata": {}}}}"#,
    );
    let ar = api_resource("", "v1", "ConfigMap");
    let sync = sync_with(
        vec![mapping(Some("data.inner"), None)],
        gvkn("v1", "ConfigMap", "s"),
        gvkn("v1", "ConfigMap", "t"),
    );
    assert!(try_apply_mappings(&source, &sync.spec.target.resource_ref, None, &ar, &sync).is_none());
    assert!(!sinker::mapping::subtree_has_guessable_plural(&parse(r#"{"apiVersion": "v1", "kind": "y"}"#)));
    assert!(sinker::mapping::subtree_has_guessable_plural(&parse(r#"{"apiVersion": "v1", "kind": "Yy"}"#)));
    assert!(sinker::mapping::subtree_has_guessable_plural(&parse(r#"{"kind": "y"}"#)));
    let ar = get_ar_from_subtree(&parse(r#"{"apiVersion": "v1", "kind": "Policy"}"#)).unwrap();
    assert_eq!(ar.plural, "policies");
}

/// The message that `serde_json` gives for a `kube` dynamic object with these data.
fn serde_flatten_error(data: serde_json::Value) -> String {
    let mut object = kube::api::DynamicObject::new("s", &kube::api::ApiResource::erase::<k8s_openapi::api::core::v1::ConfigMap>(&()));
    object.data = data;
    serde_json::to_value(&object).expect_err("data that is not a map").to_string()
}

#[test]
fn sources_whose_data_are_not_maps_fail_to_serialize() {
    let ar = api_resource("", "v1", "ConfigMap");
    let sync = sync_with(
        vec![mapping(Some("data"), Some("data"))],
        gvkn("v1", "ConfigMap", "s"),
        gvkn("v1", "ConfigMap", "t"),
    );
    let cases = vec![
        (Json::String("text".to_string()), serde_json::Value::String("text".to_string())),
        (Json::Bool(true), serde_json::Value::Bool(true)),
        (Json::Number("3".to_string()), serde_json::Value::from(3)),
        (Json::Number("-3".to_string()), serde_json::Value::from(-3)),
        (Json::Number("1.5".to_string()), serde_json::Value::from(1.5)),
        (Json::Array(vec![]), serde_json::Value::Array(vec![])),
    ];
    for (data, value) in cases {
        let source = DynamicObject {
            types: Some(TypeMeta { api_version: "v1".to_string(), kind: "ConfigMap".to_string() }),
            metadata: parse(r#"{"name": "s"}"#),
            data,
        };
        let expected = serde_flatten_error(value);
        match apply_mappings(&source, &sync.spec.target.resource_ref, None, &ar, &sync) {
            Err(Error::SerializationError(m)) => assert_eq!(m, expected),
            other => panic!("unexpected {:?}", other),
        }
        match find_field_path(&source, &None) {
            Err(Error::SerializationError(m)) => assert_eq!(m, expected),
            other => panic!("unexpected {:?}", other),
        }
    }
    assert_eq!(
        serde_flatten_error(serde_json::Value::String("text".to_string())),
        "can only flatten structs and maps (got a string)"
    );
}

#[test]
fn inner_resource_plurals_follow_kube() {
    let plural = |kind: &str| {
        get_ar_from_subtree(&parse(&format!(r#"{{"apiVersion": "example.com/v1", "kind": "{}"}}"#, kind)))
            .unwrap()
            .plural
    };
    let expected = [
        ("Policy", "policies"),
        ("Endpoints", "endpoints"),
        ("EndpointSlices", "endpointslices"),
        ("NodeMetrics", "nodes"),
        ("PodMetrics", "pods"),
        ("Class", "classes"),
        ("Box", "boxes"),
        ("Quiz", "quizes"),
        ("Match", "matches"),
        ("Mesh", "meshes"),
        ("Day", "days"),
        ("Key", "keys"),
        ("ConfigMap", "configmaps"),
        ("éy", "éies"),
    ];
    for (kind, want) in expected {
        assert_eq!(plural(kind), want, "{}", kind);
        let ar = kube::api::ApiResource::from_gvk(&kube::api::GroupVersionKind::gvk("example.com", "v1", kind));
        assert_eq!(ar.plural, want, "{}", kind);
    }
}

#[test]
fn metadata_reads_back_as_object_meta_writes_it() {
    let text = r#"{"name": "n",
        "ownerReferences": [{"uid": "u", "name": "o", "extra": 1, "kind": "K", "apiVersion": "v1", "controller": null}],
        "managedFields": [{"time": "2024-01-01T01:00:00.5+01:00", "manager": "m", "unknown": true, "operation": "Apply"}],
        "creationTimestamp": "2024-02-03T04:05:06.789Z"}"#;
    let real: k8s_openapi::apimachinery::pkg::apis::meta::v1::ObjectMeta =
        serde_json::from_str(text).expect("object meta");
    let expected = serde_json::to_string(&real).expect("serializable");
    assert_eq!(normalize_metadata(&parse(text)).to_text(), expected);
    assert_eq!(
        expected,
        r#"{"creationTimestamp":"2024-02-03T04:05:06Z","managedFields":[{"manager":"m","operation":"Apply","time":"2024-01-01T00:00:00Z"}],"name":"n","ownerReferences":[{"apiVersion":"v1","kind":"K","name":"o","uid":"u"}]}"#
    );
}

#[test]
fn whole_object_selection_keeps_floats_with_exponents() {
    let source = dynamic(
        r#"{"apiVersion": "v1", "kind": "ConfigMap", "metadata": {"name": "s"},
            "data": {"big": 1e300, "small": 1.5e-7, "n": -12}}"#,
    );
    let selected = find_field_path(&source, &Some(String::new())).expect("whole object");
    assert_eq!(selected.to_text(), text_of(&source));
    let data = find_field_path(&source, &Some("data.small".to_string())).expect("one node");
    assert_eq!(data.to_text(), serde_json::Value::from(1.5e-7).to_string());
}
