//! The `ResourceSync` and `SinkerContainer` custom resources.
use vstd::prelude::*;

use crate::json::first_from;
use crate::objects::{
    group_version_kind_of, Condition, GroupVersionKind, ObjectMeta, TypeMeta,
};
use crate::text::str_eq;

verus! {

/// The API group of the custom resources; also the field manager of the controller's
/// writes.
pub const RESOURCE_SYNC_GROUP: &'static str = "sinker.influxdata.io";

/// The finalizer the controller puts on every `ResourceSync` it manages.
pub const FINALIZER: &'static str = "sinker.influxdata.io/target";

/// Annotation that lets a deleting `ResourceSync` drop its finalizer when the remote
/// cluster cannot be reached.
pub const FORCE_DELETE_ANNOTATION: &'static str = "sinker.influxdata.io/force-delete";

/// Annotation that keeps the target object when its `ResourceSync` is deleted.
pub const DISABLE_TARGET_DELETION_ANNOTATION: &'static str = "sinker.influxdata.io/disable-target-deletion";

/// Annotation on a kubeconfig secret: a regular expression of the namespaces whose
/// `ResourceSync`s may use the secret.
pub const ALLOWED_NAMESPACES_ANNOTATION: &'static str = "sinker.influxdata.io/allowed-namespaces";

/// A reference to a resource by `apiVersion`, `kind` and name. The namespace comes from
/// the context the reference belongs to.
#[derive(Debug)]
pub struct GVKN {
    pub api_version: String,
    pub kind: String,
    pub name: String,
}

#[derive(Debug)]
pub struct SecretRef {
    pub name: String,
    pub namespace: Option<String>,
    pub key: String,
}

#[derive(Debug)]
pub struct KubeConfig {
    pub secret_ref: SecretRef,
}

#[derive(Debug)]
pub struct ClusterRef {
    /// When present, overrides the default namespace of the kubeconfig.
    pub namespace: Option<String>,
    pub kube_config: KubeConfig,
}

/// A resource in the cluster given by `cluster` (the local cluster when absent).
#[derive(Debug)]
pub struct ClusterResourceRef {
    pub resource_ref: GVKN,
    pub cluster: Option<ClusterRef>,
}

/// One field mapping; at least one of the two paths must be present.
#[derive(Debug)]
pub struct Mapping {
    pub from_field_path: Option<String>,
    pub to_field_path: Option<String>,
}

#[derive(Debug)]
pub struct ResourceSyncSpec {
    pub source: ClusterResourceRef,
    pub target: ClusterResourceRef,
    pub mappings: Vec<Mapping>,
}

#[derive(Debug)]
pub struct ResourceSyncStatus {
    pub conditions: Option<Vec<Condition>>,
}

/// The `ResourceSync` custom resource.
#[derive(Debug)]
pub struct ResourceSync {
    pub metadata: ObjectMeta,
    pub spec: ResourceSyncSpec,
    pub status: Option<ResourceSyncStatus>,
}

/// The spec of the `SinkerContainer` custom resource, which holds arbitrary data.
#[derive(Debug)]
pub struct SinkerContainerSpec {}

pub struct GVKNView {
    pub api_version: Seq<char>,
    pub kind: Seq<char>,
    pub name: Seq<char>,
}

impl View for GVKN {
    type V = GVKNView;

    open spec fn view(&self) -> GVKNView {
        GVKNView { api_version: self.api_version@, kind: self.kind@, name: self.name@ }
    }
}

pub struct ClusterRefView {
    pub namespace: Option<Seq<char>>,
    pub secret_name: Seq<char>,
    pub secret_namespace: Option<Seq<char>>,
    pub secret_key: Seq<char>,
}

impl View for ClusterRef {
    type V = ClusterRefView;

    open spec fn view(&self) -> ClusterRefView {
        ClusterRefView {
            namespace: opt_view(self.namespace),
            secret_name: self.kube_config.secret_ref.name@,
            secret_namespace: opt_view(self.kube_config.secret_ref.namespace),
            secret_key: self.kube_config.secret_ref.key@,
        }
    }
}

pub struct ClusterResourceRefView {
    pub resource_ref: GVKNView,
    pub cluster: Option<ClusterRefView>,
}

impl View for ClusterResourceRef {
    type V = ClusterResourceRefView;

    open spec fn view(&self) -> ClusterResourceRefView {
        ClusterResourceRefView {
            resource_ref: self.resource_ref@,
            cluster: match self.cluster {
                Some(c) => Some(c@),
                None => None,
            },
        }
    }
}

pub fn copy_opt_string(o: &Option<String>) -> (r: Option<String>)
    ensures
        opt_view(r) == opt_view(*o),
{
    match o {
        Some(s) => Some(s.clone()),
        None => None,
    }
}

impl GVKN {
    pub fn copy(&self) -> (r: GVKN)
        ensures
            r@ == self@,
    {
        GVKN { api_version: self.api_version.clone(), kind: self.kind.clone(), name: self.name.clone() }
    }
}

impl ClusterRef {
    pub fn copy(&self) -> (r: ClusterRef)
        ensures
            r@ == self@,
    {
        ClusterRef {
            namespace: copy_opt_string(&self.namespace),
            kube_config: KubeConfig {
                secret_ref: SecretRef {
                    name: self.kube_config.secret_ref.name.clone(),
                    namespace: copy_opt_string(&self.kube_config.secret_ref.namespace),
                    key: self.kube_config.secret_ref.key.clone(),
                },
            },
        }
    }
}

fn opt_string_same(a: &Option<String>, b: &Option<String>) -> (r: bool)
    ensures
        r == (opt_view(*a) == opt_view(*b)),
{
    match (a, b) {
        (Some(x), Some(y)) => str_eq(x.as_str(), y.as_str()),
        (None, None) => true,
        _ => false,
    }
}

impl GVKN {
    /// Whether two references are equal.
    pub fn same_as(&self, other: &GVKN) -> (r: bool)
        ensures
            r == (self@ == other@),
    {
        str_eq(self.api_version.as_str(), other.api_version.as_str()) && str_eq(
            self.kind.as_str(),
            other.kind.as_str(),
        ) && str_eq(self.name.as_str(), other.name.as_str())
    }
}

impl ClusterRef {
    /// Whether two cluster references are equal.
    pub fn same_as(&self, other: &ClusterRef) -> (r: bool)
        ensures
            r == (self@ == other@),
    {
        opt_string_same(&self.namespace, &other.namespace) && str_eq(
            self.kube_config.secret_ref.name.as_str(),
            other.kube_config.secret_ref.name.as_str(),
        ) && opt_string_same(
            &self.kube_config.secret_ref.namespace,
            &other.kube_config.secret_ref.namespace,
        ) && str_eq(
            self.kube_config.secret_ref.key.as_str(),
            other.kube_config.secret_ref.key.as_str(),
        )
    }
}

impl ClusterResourceRef {
    /// Whether two resource references are equal.
    pub fn same_as(&self, other: &ClusterResourceRef) -> (r: bool)
        ensures
            r == (self@ == other@),
    {
        self.resource_ref.same_as(&other.resource_ref) && match (&self.cluster, &other.cluster) {
            (Some(a), Some(b)) => a.same_as(b),
            (None, None) => true,
            _ => false,
        }
    }

    pub fn copy(&self) -> (r: ClusterResourceRef)
        ensures
            r@ == self@,
    {
        ClusterResourceRef {
            resource_ref: self.resource_ref.copy(),
            cluster: match &self.cluster {
                Some(c) => Some(c.copy()),
                None => None,
            },
        }
    }
}

/// The view of an optional string.
pub open spec fn opt_view(o: Option<String>) -> Option<Seq<char>> {
    match o {
        Some(s) => Some(s@),
        None => None,
    }
}

/// Whether the annotation at an index is named `key`.
pub open spec fn names_annotation(a: Seq<(String, String)>, key: Seq<char>) -> spec_fn(int) -> bool {
    |k: int| a[k].0@ == key
}

/// The value of the first annotation named `key`.
pub open spec fn annotation_value(annotations: Option<Vec<(String, String)>>, key: Seq<char>) -> Option<
    Seq<char>,
> {
    match annotations {
        None => None,
        Some(a) => {
            let p = first_from(0, a@.len() as int, names_annotation(a@, key));
            if p < a@.len() {
                Some(a@[p].1@)
            } else {
                None
            }
        },
    }
}

/// Looking an annotation up finds its value wherever the key stands among annotations
/// with distinct keys, and finds nothing for a key that no annotation has.
pub proof fn lemma_annotation_found_anywhere(a: Vec<(String, String)>, j: int, key: Seq<char>)
    ensures
        0 <= j < a@.len() && (forall|x: int, y: int|
            0 <= x < y < a@.len() ==> #[trigger] a@[x].0@ != #[trigger] a@[y].0@) ==> annotation_value(
            Some(a),
            a@[j].0@,
        ) == Some(a@[j].1@),
        (forall|x: int| 0 <= x < a@.len() ==> #[trigger] a@[x].0@ != key) ==> annotation_value(
            Some(a),
            key,
        ) is None,
        annotation_value(None, key) is None,
{
    if 0 <= j < a@.len() && (forall|x: int, y: int|
        0 <= x < y < a@.len() ==> #[trigger] a@[x].0@ != #[trigger] a@[y].0@) {
        let found = a@[j].0@;
        let p = names_annotation(a@, found);
        assert forall|x: int| 0 <= x < j implies !#[trigger] p(x) by {
            assert(a@[x].0@ != a@[j].0@);
        }
        crate::json::lemma_first_from_is(0, a@.len() as int, p, j);
    }
    let q = names_annotation(a@, key);
    crate::json::lemma_first_from(0, a@.len() as int, q);
}

/// Finds the value of the annotation named `key`.
pub fn find_annotation<'a>(annotations: &'a Option<Vec<(String, String)>>, key: &str) -> (r: Option<&'a String>)
    ensures
        match r {
            Some(v) => annotation_value(*annotations, key@) == Some(v@),
            None => annotation_value(*annotations, key@) is None,
        },
{
    match annotations {
        None => None,
        Some(a) => {
            let ghost p = names_annotation(a@, key@);
            let mut i: usize = 0;
            while i < a.len()
                invariant
                    *annotations == Some(*a),
                    p == names_annotation(a@, key@),
                    i <= a.len(),
                    forall|k: int| 0 <= k < i ==> !#[trigger] p(k),
                decreases a.len() - i,
            {
                if str_eq(a[i].0.as_str(), key) {
                    proof { crate::json::lemma_first_from_is(0, a@.len() as int, p, i as int); }
                    return Some(&a[i].1);
                }
                i = i + 1;
            }
            proof { crate::json::lemma_first_from_is(0, a@.len() as int, p, a@.len() as int); }
            None
        },
    }
}

impl ResourceSync {
    /// Whether the annotation `annotation` holds the text `true`; a missing annotation
    /// or any other text (`bool`'s `FromStr` accepts only `true` and `false`) reads as
    /// `false`.
    pub fn get_boolean_annotation_val(&self, annotation: &str) -> (r: bool)
        ensures
            r == (annotation_value(self.metadata.annotations, annotation@) == Some("true"@)),
    {
        match find_annotation(&self.metadata.annotations, annotation) {
            Some(v) => str_eq(v.as_str(), "true"),
            None => false,
        }
    }

    pub fn has_force_delete_option_enabled(&self) -> (r: bool)
        ensures
            r == (annotation_value(self.metadata.annotations, FORCE_DELETE_ANNOTATION@) == Some(
                "true"@,
            )),
    {
        self.get_boolean_annotation_val(FORCE_DELETE_ANNOTATION)
    }

    pub fn has_disable_target_deletion_option_enabled(&self) -> (r: bool)
        ensures
            r == (annotation_value(self.metadata.annotations, DISABLE_TARGET_DELETION_ANNOTATION@)
                == Some("true"@)),
    {
        self.get_boolean_annotation_val(DISABLE_TARGET_DELETION_ANNOTATION)
    }
}

impl GVKN {
    /// The `apiVersion` and `kind` of the reference.
    pub fn type_meta(&self) -> (r: TypeMeta)
        ensures
            r.api_version@ == self.api_version@,
            r.kind@ == self.kind@,
    {
        TypeMeta { api_version: self.api_version.clone(), kind: self.kind.clone() }
    }

    /// The group, version and kind of the reference.
    pub fn group_version_kind(&self) -> (r: GroupVersionKind)
        ensures
            r.group@ == crate::objects::group_of(self.api_version@),
            r.version@ == crate::objects::version_of(self.api_version@),
            r.kind@ == self.kind@,
    {
        group_version_kind_of(&self.type_meta())
    }
}

} // verus!
