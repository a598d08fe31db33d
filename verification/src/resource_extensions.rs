//! Helpers on the custom resources: finalizers, references to watched objects, and
//! the namespace rules for reaching remote clusters.
use vstd::prelude::*;

use crate::error::{Error, ErrorView, KubeFailure};
use crate::json::first_from;
use crate::objects::{group_of, version_of, ApiResource, GroupVersionKind};
use crate::remote_watcher::RemoteWatcherKey;
use crate::resources::{
    annotation_value, copy_opt_string, find_annotation, opt_view, ClusterRef,
    ClusterResourceRef, ResourceSync, ALLOWED_NAMESPACES_ANNOTATION, FINALIZER,
};
use crate::text::str_eq;
use crate::util::strings_view;

verus! {

/// A reference to a `ResourceSync` by name and namespace.
#[derive(Debug)]
pub struct ObjectRef {
    pub name: String,
    pub namespace: Option<String>,
}

pub struct ObjectRefView {
    pub name: Seq<char>,
    pub namespace: Option<Seq<char>>,
}

impl View for ObjectRef {
    type V = ObjectRefView;

    open spec fn view(&self) -> ObjectRefView {
        ObjectRefView { name: self.name@, namespace: opt_view(self.namespace) }
    }
}

pub fn opt_string_eq(a: &Option<String>, b: &Option<String>) -> (r: bool)
    ensures
        r == (opt_view(*a) == opt_view(*b)),
{
    match (a, b) {
        (Some(x), Some(y)) => str_eq(x.as_str(), y.as_str()),
        (None, None) => true,
        _ => false,
    }
}

impl ObjectRef {
    pub fn copy(&self) -> (r: ObjectRef)
        ensures
            r@ == self@,
    {
        ObjectRef { name: self.name.clone(), namespace: copy_opt_string(&self.namespace) }
    }

    /// Whether two references name the same object.
    pub fn same_as(&self, other: &ObjectRef) -> (r: bool)
        ensures
            r == (self@ == other@),
    {
        str_eq(self.name.as_str(), other.name.as_str()) && opt_string_eq(
            &self.namespace,
            &other.namespace,
        )
    }
}

/// The finalizers of an object, as character sequences.
pub open spec fn finalizer_views(f: Option<Vec<String>>) -> Seq<Seq<char>> {
    match f {
        Some(v) => strings_view(v@),
        None => Seq::empty(),
    }
}

impl ResourceSync {
    /// Whether deletion of the object has been requested.
    pub fn has_been_deleted(&self) -> (r: bool)
        ensures
            r == self.metadata.deletion_timestamp is Some,
    {
        self.metadata.deletion_timestamp.is_some()
    }

    /// Whether the object carries the controller's finalizer.
    pub fn has_target_finalizer(&self) -> (r: bool)
        ensures
            r == finalizer_views(self.metadata.finalizers).contains(FINALIZER@),
    {
        match &self.metadata.finalizers {
            None => false,
            Some(f) => {
                let mut i: usize = 0;
                while i < f.len()
                    invariant
                        self.metadata.finalizers == Some(*f),
                        i <= f.len(),
                        forall|k: int| 0 <= k < i ==> f@[k]@ != FINALIZER@,
                    decreases f.len() - i,
                {
                    if str_eq(f[i].as_str(), FINALIZER) {
                        proof {
                            let fv = finalizer_views(self.metadata.finalizers);
                            assert(fv == f@.map_values(|s: String| s@));
                            assert(fv[i as int] == f@[i as int]@);
                            assert(fv[i as int] == FINALIZER@);
                        }
                        return true;
                    }
                    i = i + 1;
                }
                proof {
                    let fv = finalizer_views(self.metadata.finalizers);
                    assert forall|k: int| 0 <= k < fv.len() implies fv[k] != FINALIZER@ by {
                        assert(fv[k] == f@[k]@);
                    }
                }
                false
            },
        }
    }

    /// A copy of the finalizers, or none.
    pub fn finalizers_clone_or_empty(&self) -> (r: Vec<String>)
        ensures
            strings_view(r@) == finalizer_views(self.metadata.finalizers),
    {
        match &self.metadata.finalizers {
            Some(f) => {
                let mut out: Vec<String> = Vec::new();
                let mut i: usize = 0;
                while i < f.len()
                    invariant
                        i <= f.len(),
                        out@.len() == i,
                        out@.map_values(|s: String| s@) == f@.take(i as int).map_values(
                            |s: String| s@,
                        ),
                    decreases f.len() - i,
                {
                    let ghost before = out@;
                    let c = f[i].clone();
                    out.push(c);
                    proof {
                        assert(c@ == f@[i as int]@);
                        assert forall|k: int| 0 <= k < i + 1 implies #[trigger] out@[k]@ == f@[k]@ by {
                            if k < i {
                                assert(before.map_values(|s: String| s@)[k] == f@.take(
                                    i as int,
                                ).map_values(|s: String| s@)[k]);
                            }
                        }
                        assert(out@.map_values(|s: String| s@) =~= f@.take(i + 1).map_values(
                            |s: String| s@,
                        ));
                    }
                    i = i + 1;
                }
                proof { assert(f@.take(f.len() as int) =~= f@); }
                out
            },
            None => {
                let out: Vec<String> = Vec::new();
                proof { assert(out@.map_values(|s: String| s@) =~= Seq::<Seq<char>>::empty()); }
                out
            },
        }
    }

    /// The reference to this object; the object must have a name.
    pub fn object_ref(&self) -> (r: ObjectRef)
        requires
            self.metadata.name is Some,
        ensures
            r@.name == self.metadata.name->0@,
            r@.namespace == opt_view(self.metadata.namespace),
    {
        ObjectRef {
            name: self.metadata.name.as_ref().unwrap().clone(),
            namespace: copy_opt_string(&self.metadata.namespace),
        }
    }
}

impl ClusterResourceRef {
    /// The key under which the watcher of this object, on behalf of `resource_sync`,
    /// is registered.
    pub fn remote_watcher_key(&self, resource_sync: &ResourceSync) -> (r: RemoteWatcherKey)
        requires
            resource_sync.metadata.name is Some,
        ensures
            r.object@ == self@,
            r.resource_sync@.name == resource_sync.metadata.name->0@,
            r.resource_sync@.namespace == opt_view(resource_sync.metadata.namespace),
    {
        RemoteWatcherKey { object: self.copy(), resource_sync: resource_sync.object_ref() }
    }
}

// ---------------------------------------------------------------- remote clusters

/// A kubeconfig secret: its annotations and its data entries.
#[derive(Debug)]
pub struct Secret {
    pub annotations: Option<Vec<(String, String)>>,
    pub data: Option<Vec<(String, Vec<u8>)>>,
}

/// Whether the regular expression `pattern` compiles (`Some`) and matches somewhere in
/// `text` (`Some(true)`), as the `regex` crate decides.
pub uninterp spec fn regex_search(pattern: Seq<char>, text: Seq<char>) -> Option<bool>;

/// Compiles `pattern` with `regex::Regex::new` and runs `Regex::is_match` on `text`.
/// The contract names the outcome `regex_search`: `None` for a pattern that does not
/// compile, otherwise whether it matches.
#[verifier::external_body]
fn regex_is_match(pattern: &str, text: &str) -> (r: Option<bool>)
    ensures
        r == regex_search(pattern@, text@),
{
    match regex::Regex::new(pattern) {
        Ok(re) => Some(re.is_match(text)),
        Err(_) => None,
    }
}

/// Whether a `ResourceSync` in `local_ns` may use a kubeconfig secret from another
/// namespace: the secret's allowed-namespaces annotation must hold a regular
/// expression that matches `local_ns`.
pub open spec fn secret_allows(annotations: Option<Vec<(String, String)>>, local_ns: Seq<char>) -> bool {
    match annotation_value(annotations, ALLOWED_NAMESPACES_ANNOTATION@) {
        Some(pattern) => regex_search(pattern, local_ns) == Some(true),
        None => false,
    }
}

/// Allows a kubeconfig secret in another namespace only when its allowed-namespaces
/// annotation is a valid regular expression that matches `local_ns`.
pub fn verify_kubeconfig_secret_access(local_ns: &str, sec: &Secret) -> (r: Result<(), Error>)
    ensures
        secret_allows(sec.annotations, local_ns@) ==> r is Ok,
        !secret_allows(sec.annotations, local_ns@) ==> r matches Err(Error::UnauthorizedKubeconfigAccess()),
{
    let pattern = match find_annotation(&sec.annotations, ALLOWED_NAMESPACES_ANNOTATION) {
        Some(p) => p,
        None => return Err(Error::UnauthorizedKubeconfigAccess()),
    };
    match regex_is_match(pattern.as_str(), local_ns) {
        Some(true) => Ok(()),
        _ => Err(Error::UnauthorizedKubeconfigAccess()),
    }
}

/// The namespace of a remote cluster's kubeconfig secret: the one given in the
/// reference, else the `ResourceSync`'s own.
pub open spec fn secret_namespace_of(cluster: ClusterRef, local_ns: Seq<char>) -> Seq<char> {
    match cluster.kube_config.secret_ref.namespace {
        Some(ns) => ns@,
        None => local_ns,
    }
}

pub fn secret_namespace(cluster: &ClusterRef, local_ns: &str) -> (r: String)
    ensures
        r@ == secret_namespace_of(*cluster, local_ns@),
{
    match &cluster.kube_config.secret_ref.namespace {
        Some(ns) => ns.clone(),
        None => String::from_str(local_ns),
    }
}

/// The error for a kubeconfig secret that could not be read: the client's error for
/// a secret in the local namespace, and no detail about other namespaces.
pub fn secret_read_error(secret_ns: &str, local_ns: &str, err: KubeFailure) -> (r: Error)
    ensures
        secret_ns@ == local_ns@ ==> (r matches Error::KubeError(k) && k.code == err.code
            && k.message@ == err.message@),
        secret_ns@ != local_ns@ ==> r matches Error::UnauthorizedKubeconfigAccess(),
{
    if str_eq(secret_ns, local_ns) {
        Error::KubeError(err)
    } else {
        Error::UnauthorizedKubeconfigAccess()
    }
}

/// The value stored under `key` in secret data.
pub open spec fn secret_value(data: Seq<(String, Vec<u8>)>, key: Seq<char>) -> Option<Seq<u8>> {
    let p = first_from(0, data.len() as int, |k: int| data[k].0@ == key);
    if p < data.len() {
        Some(data[p].1@)
    } else {
        None
    }
}

/// The kubeconfig bytes of the secret that `cluster` names, once read from
/// `secret_ns`: a secret from another namespace must allow `local_ns`, and the key must
/// be present. A secret without data is not accepted (`requires`).
pub fn kubeconfig_bytes<'a>(
    cluster: &ClusterRef,
    secret_ns: &str,
    local_ns: &str,
    sec: &'a Secret,
) -> (r: Result<&'a Vec<u8>, Error>)
    requires
        sec.data is Some,
    ensures
        secret_ns@ != local_ns@ && !secret_allows(sec.annotations, local_ns@) ==> r matches Err(
            Error::UnauthorizedKubeconfigAccess(),
        ),
        (secret_ns@ == local_ns@ || secret_allows(sec.annotations, local_ns@)) ==> match secret_value(
            sec.data->0@,
            cluster.kube_config.secret_ref.key@,
        ) {
            Some(bytes) => r matches Ok(b) && b@ == bytes,
            None => r matches Err(Error::MissingKeyError(k, n, ns)) && k@
                == cluster.kube_config.secret_ref.key@ && n@ == cluster.kube_config.secret_ref.name@
                && ns@ == secret_ns@,
        },
{
    if !str_eq(secret_ns, local_ns) {
        match verify_kubeconfig_secret_access(local_ns, sec) {
            Ok(()) => {},
            Err(e) => return Err(e),
        }
    }
    let data = sec.data.as_ref().unwrap();
    let key = &cluster.kube_config.secret_ref.key;
    let ghost p = |k: int| data@[k].0@ == key@;
    let mut i: usize = 0;
    while i < data.len()
        invariant
            sec.data == Some(*data),
            key == &cluster.kube_config.secret_ref.key,
            secret_ns@ != local_ns@ ==> secret_allows(sec.annotations, local_ns@),
            p == (|k: int| data@[k].0@ == key@),
            i <= data.len(),
            forall|k: int| 0 <= k < i ==> !#[trigger] p(k),
        decreases data.len() - i,
    {
        if str_eq(data[i].0.as_str(), key.as_str()) {
            proof { crate::json::lemma_first_from_is(0, data@.len() as int, p, i as int); }
            return Ok(&data[i].1);
        }
        i = i + 1;
    }
    proof { crate::json::lemma_first_from_is(0, data@.len() as int, p, data@.len() as int); }
    Err(
        Error::MissingKeyError(
            key.clone(),
            cluster.kube_config.secret_ref.name.clone(),
            String::from_str(secret_ns),
        ),
    )
}

/// Whether a kind of resource lives in namespaces.
#[derive(Debug, Clone, Copy, PartialEq, Eq, Structural)]
pub enum Scope {
    Cluster,
    Namespaced,
}

/// The namespace in which the API for a referenced object operates: none for
/// cluster-scoped kinds; the `ResourceSync`'s namespace for the local cluster; the
/// cluster reference's namespace (possibly none, meaning the kubeconfig's default) for a
/// remote cluster.
pub open spec fn api_namespace_of(scope: Scope, cluster: Option<ClusterRef>, local_ns: Seq<char>) -> Option<
    Seq<char>,
> {
    match scope {
        Scope::Cluster => None,
        Scope::Namespaced => match cluster {
            None => Some(local_ns),
            Some(c) => opt_view(c.namespace),
        },
    }
}

pub fn api_namespace(scope: Scope, cluster: &Option<ClusterRef>, local_ns: &str) -> (r: Option<String>)
    ensures
        opt_view(r) == api_namespace_of(scope, *cluster, local_ns@),
{
    match scope {
        Scope::Cluster => None,
        Scope::Namespaced => match cluster {
            None => Some(String::from_str(local_ns)),
            Some(c) => copy_opt_string(&c.namespace),
        },
    }
}

// ---------------------------------------------------------------- kubeconfig

#[verifier::external_type_specification]
#[verifier::external_body]
pub struct ExKubeconfig(kube::config::Kubeconfig);

/// What `std::str::from_utf8` makes of the bytes: the decoded text, or the message of
/// its error.
pub uninterp spec fn utf8_decoding(bytes: Seq<u8>) -> Result<Seq<char>, Seq<char>>;

/// Calls `std::str::from_utf8`; the contract names its outcome `utf8_decoding`, the
/// error taken by its message.
#[verifier::external_body]
fn decode_utf8(bytes: &[u8]) -> (r: Result<String, String>)
    ensures
        match utf8_decoding(bytes@) {
            Ok(t) => r matches Ok(s) && s@ == t,
            Err(m) => r matches Err(x) && x@ == m,
        },
{
    match std::str::from_utf8(bytes) {
        Ok(text) => Ok(text.to_string()),
        Err(e) => Err(e.to_string()),
    }
}

/// The message of the error that `kube::config::Kubeconfig::from_yaml` gives for a
/// text, or `None` where it parses the text.
pub uninterp spec fn kubeconfig_yaml_error(text: Seq<char>) -> Option<Seq<char>>;

/// Calls `kube::config::Kubeconfig::from_yaml`, which parses every YAML document of the
/// text and merges them; the contract names its failure `kubeconfig_yaml_error`. The
/// parsed kubeconfig is not described: the library hands on the text it was parsed
/// from.
#[verifier::external_body]
fn parse_kubeconfig(text: &str) -> (r: Result<kube::config::Kubeconfig, String>)
    ensures
        match kubeconfig_yaml_error(text@) {
            None => r is Ok,
            Some(m) => r matches Err(x) && x@ == m,
        },
{
    match kube::config::Kubeconfig::from_yaml(text) {
        Ok(config) => Ok(config),
        Err(e) => Err(e.to_string()),
    }
}

/// Whether the bytes of a kubeconfig secret key hold a kubeconfig: they must be UTF-8,
/// and the text must parse as a kubeconfig.
pub open spec fn kubeconfig_outcome(bytes: Seq<u8>) -> Result<(), ErrorView> {
    match utf8_decoding(bytes) {
        Err(m) => Err(ErrorView::KubeconfigUtf8Error(m)),
        Ok(text) => match kubeconfig_yaml_error(text) {
            Some(m) => Err(ErrorView::KubeconfigError(m)),
            None => Ok(()),
        },
    }
}

/// The kubeconfig text held in the bytes of a secret key: the bytes decoded as UTF-8,
/// once it is checked that the text parses as a kubeconfig; an error when the bytes
/// are not UTF-8 or their text is not a kubeconfig.
pub fn kubeconfig_text(bytes: &[u8]) -> (r: Result<String, Error>)
    ensures
        match kubeconfig_outcome(bytes@) {
            Ok(()) => r matches Ok(t) && utf8_decoding(bytes@) == Ok::<Seq<char>, Seq<char>>(t@),
            Err(e) => r matches Err(x) && x@ == e,
        },
{
    let text = match decode_utf8(bytes) {
        Ok(t) => t,
        Err(m) => return Err(Error::KubeconfigUtf8Error(m)),
    };
    match parse_kubeconfig(text.as_str()) {
        Ok(_) => Ok(text),
        Err(m) => Err(Error::KubeconfigError(m)),
    }
}

// ---------------------------------------------------------------- resolving an API

/// The API through which a referenced object is reached: its resource type, and the
/// namespace the API operates in (none for cluster-scoped kinds, or for a remote
/// cluster's default namespace).
#[derive(Debug)]
pub struct NamespacedApi {
    pub ar: ApiResource,
    pub namespace: Option<String>,
}

pub struct NamespacedApiView {
    pub group: Seq<char>,
    pub version: Seq<char>,
    pub api_version: Seq<char>,
    pub kind: Seq<char>,
    pub plural: Seq<char>,
    pub namespace: Option<Seq<char>>,
}

impl View for NamespacedApi {
    type V = NamespacedApiView;

    open spec fn view(&self) -> NamespacedApiView {
        NamespacedApiView {
            group: self.ar.group@,
            version: self.ar.version@,
            api_version: self.ar.api_version@,
            kind: self.ar.kind@,
            plural: self.ar.plural@,
            namespace: opt_view(self.namespace),
        }
    }
}

/// Where the resolution of an API stands.
#[derive(Debug)]
pub enum ResolutionStage {
    Start,
    /// Waiting for the kubeconfig secret, read from this namespace.
    ReadingSecret(String),
    /// Waiting for the client of the remote cluster.
    Connecting,
    /// Waiting for the discovery of the resource type.
    Discovering,
    Finished,
}

pub enum ResolutionStageView {
    Start,
    ReadingSecret(Seq<char>),
    Connecting,
    Discovering,
    Finished,
}

impl View for ResolutionStage {
    type V = ResolutionStageView;

    open spec fn view(&self) -> ResolutionStageView {
        match self {
            ResolutionStage::Start => ResolutionStageView::Start,
            ResolutionStage::ReadingSecret(ns) => ResolutionStageView::ReadingSecret(ns@),
            ResolutionStage::Connecting => ResolutionStageView::Connecting,
            ResolutionStage::Discovering => ResolutionStageView::Discovering,
            ResolutionStage::Finished => ResolutionStageView::Finished,
        }
    }
}

/// The answer to the last request of a resolution.
#[derive(Debug)]
pub enum ResolutionEvent {
    Start,
    SecretRead(Result<Secret, KubeFailure>),
    /// The client of the remote cluster was built from the kubeconfig and reached the
    /// API server, or could not be.
    Connected(Result<(), Error>),
    /// The API server described the resource type.
    Discovered(Result<(ApiResource, Scope), KubeFailure>),
}

/// What a resolution asks for next.
#[derive(Debug)]
pub enum ResolutionRequest {
    /// Read the secret with this name from this namespace, with the local client.
    ReadSecret(String, String),
    /// Build the remote cluster's client from this kubeconfig text (the secret's, which
    /// parses as a kubeconfig), overriding its default namespace when one is given, and
    /// ask the server for its version.
    Connect(String, Option<String>),
    /// Discover this group, version and kind with the current client.
    Discover(GroupVersionKind),
    Done(Result<NamespacedApi, Error>),
    /// The answer did not fit the request, or the secret has no data.
    Abort,
}

pub enum ResolutionRequestView {
    ReadSecret(Seq<char>, Seq<char>),
    Connect(Seq<char>, Option<Seq<char>>),
    Discover(Seq<char>, Seq<char>, Seq<char>),
    Done(Result<NamespacedApiView, ErrorView>),
    Abort,
}

impl View for ResolutionRequest {
    type V = ResolutionRequestView;

    open spec fn view(&self) -> ResolutionRequestView {
        match self {
            ResolutionRequest::ReadSecret(ns, name) => ResolutionRequestView::ReadSecret(ns@, name@),
            ResolutionRequest::Connect(text, ns) => ResolutionRequestView::Connect(text@, opt_view(*ns)),
            ResolutionRequest::Discover(gvk) => ResolutionRequestView::Discover(
                gvk.group@,
                gvk.version@,
                gvk.kind@,
            ),
            ResolutionRequest::Done(Ok(api)) => ResolutionRequestView::Done(Ok(api@)),
            ResolutionRequest::Done(Err(e)) => ResolutionRequestView::Done(Err(e@)),
            ResolutionRequest::Abort => ResolutionRequestView::Abort,
        }
    }
}

/// The discovery of the referenced kind.
pub open spec fn discover(r: ClusterResourceRef) -> ResolutionRequestView {
    ResolutionRequestView::Discover(
        group_of(r.resource_ref.api_version@),
        version_of(r.resource_ref.api_version@),
        r.resource_ref.kind@,
    )
}

pub open spec fn resolved(result: Result<NamespacedApiView, ErrorView>) -> (
    ResolutionStageView,
    ResolutionRequestView,
) {
    (ResolutionStageView::Finished, ResolutionRequestView::Done(result))
}

/// One step of the resolution of the API of `r` for a `ResourceSync` in `local_ns`:
/// the local cluster is discovered at once; a remote cluster's kubeconfig comes from a
/// secret, which may come from another namespace only where that namespace allows it.
pub open spec fn resolution_transition(
    r: ClusterResourceRef,
    local_ns: Seq<char>,
    stage: ResolutionStageView,
    event: ResolutionEvent,
) -> (ResolutionStageView, ResolutionRequestView) {
    let abort = (stage, ResolutionRequestView::Abort);
    match (stage, r.cluster) {
        (ResolutionStageView::Start, None) => match event {
            ResolutionEvent::Start => (ResolutionStageView::Discovering, discover(r)),
            _ => abort,
        },
        (ResolutionStageView::Start, Some(c)) => match event {
            ResolutionEvent::Start => (
                ResolutionStageView::ReadingSecret(secret_namespace_of(c, local_ns)),
                ResolutionRequestView::ReadSecret(
                    secret_namespace_of(c, local_ns),
                    c.kube_config.secret_ref.name@,
                ),
            ),
            _ => abort,
        },
        (ResolutionStageView::ReadingSecret(secret_ns), Some(c)) => match event {
            ResolutionEvent::SecretRead(Err(f)) => resolved(
                Err(
                    if secret_ns == local_ns {
                        ErrorView::KubeError(f.code, f.message@)
                    } else {
                        ErrorView::UnauthorizedKubeconfigAccess
                    },
                ),
            ),
            ResolutionEvent::SecretRead(Ok(sec)) => if secret_ns != local_ns && !secret_allows(
                sec.annotations,
                local_ns,
            ) {
                resolved(Err(ErrorView::UnauthorizedKubeconfigAccess))
            } else {
                match sec.data {
                    None => (ResolutionStageView::Finished, ResolutionRequestView::Abort),
                    Some(data) => match secret_value(data@, c.kube_config.secret_ref.key@) {
                        None => resolved(
                            Err(
                                ErrorView::MissingKeyError(
                                    c.kube_config.secret_ref.key@,
                                    c.kube_config.secret_ref.name@,
                                    secret_ns,
                                ),
                            ),
                        ),
                        Some(bytes) => match kubeconfig_outcome(bytes) {
                            Err(e) => resolved(Err(e)),
                            Ok(()) => (
                                ResolutionStageView::Connecting,
                                ResolutionRequestView::Connect(
                                    utf8_decoding(bytes)->Ok_0,
                                    opt_view(c.namespace),
                                ),
                            ),
                        },
                    },
                }
            },
            _ => abort,
        },
        (ResolutionStageView::Connecting, _) => match event {
            ResolutionEvent::Connected(Err(e)) => resolved(Err(e@)),
            ResolutionEvent::Connected(Ok(_)) => (ResolutionStageView::Discovering, discover(r)),
            _ => abort,
        },
        (ResolutionStageView::Discovering, _) => match event {
            ResolutionEvent::Discovered(Err(f)) => resolved(Err(ErrorView::KubeError(f.code, f.message@))),
            ResolutionEvent::Discovered(Ok((ar, scope))) => resolved(
                Ok(
                    NamespacedApiView {
                        group: ar.group@,
                        version: ar.version@,
                        api_version: ar.api_version@,
                        kind: ar.kind@,
                        plural: ar.plural@,
                        namespace: api_namespace_of(scope, r.cluster, local_ns),
                    },
                ),
            ),
            _ => abort,
        },
        _ => abort,
    }
}

fn done(result: Result<NamespacedApi, Error>) -> (r: (ResolutionStage, ResolutionRequest))
    ensures
        r.0@ == ResolutionStageView::Finished,
        r.1 matches ResolutionRequest::Done(x) && (match (x, result) {
            (Ok(a), Ok(b)) => a@ == b@,
            (Err(a), Err(b)) => a@ == b@,
            _ => false,
        }),
{
    (ResolutionStage::Finished, ResolutionRequest::Done(result))
}

impl ClusterResourceRef {
    fn discovery(&self) -> (r: ResolutionRequest)
        ensures
            r@ == discover(*self),
    {
        ResolutionRequest::Discover(self.resource_ref.group_version_kind())
    }

    /// One step of the resolution of the API of this reference for a `ResourceSync` in
    /// `local_ns`: given the answer `event` in `stage`, the next stage and request.
    pub fn resolution_step(&self, local_ns: &str, stage: ResolutionStage, event: ResolutionEvent) -> (r: (
        ResolutionStage,
        ResolutionRequest,
    ))
        ensures
            (r.0@, r.1@) == resolution_transition(*self, local_ns@, stage@, event),
    {
        match (stage, &self.cluster) {
            (ResolutionStage::Start, None) => match event {
                ResolutionEvent::Start => (ResolutionStage::Discovering, self.discovery()),
                _ => (ResolutionStage::Start, ResolutionRequest::Abort),
            },
            (ResolutionStage::Start, Some(c)) => match event {
                ResolutionEvent::Start => {
                    let secret_ns = secret_namespace(c, local_ns);
                    let ns = secret_ns.clone();
                    (
                        ResolutionStage::ReadingSecret(secret_ns),
                        ResolutionRequest::ReadSecret(ns, c.kube_config.secret_ref.name.clone()),
                    )
                },
                _ => (ResolutionStage::Start, ResolutionRequest::Abort),
            },
            (ResolutionStage::ReadingSecret(secret_ns), Some(c)) => match event {
                ResolutionEvent::SecretRead(Err(f)) => done(
                    Err(secret_read_error(secret_ns.as_str(), local_ns, f)),
                ),
                ResolutionEvent::SecretRead(Ok(sec)) => {
                    if !str_eq(secret_ns.as_str(), local_ns) {
                        match verify_kubeconfig_secret_access(local_ns, &sec) {
                            Ok(()) => {},
                            Err(e) => return done(Err(e)),
                        }
                    }
                    if sec.data.is_none() {
                        return (ResolutionStage::Finished, ResolutionRequest::Abort);
                    }
                    match kubeconfig_bytes(c, secret_ns.as_str(), local_ns, &sec) {
                        Err(e) => done(Err(e)),
                        Ok(bytes) => match kubeconfig_text(bytes.as_slice()) {
                            Err(e) => done(Err(e)),
                            Ok(text) => (
                                ResolutionStage::Connecting,
                                ResolutionRequest::Connect(text, copy_opt_string(&c.namespace)),
                            ),
                        },
                    }
                },
                _ => (ResolutionStage::ReadingSecret(secret_ns), ResolutionRequest::Abort),
            },
            (ResolutionStage::Connecting, _) => match event {
                ResolutionEvent::Connected(Err(e)) => done(Err(e)),
                ResolutionEvent::Connected(Ok(_)) => (ResolutionStage::Discovering, self.discovery()),
                _ => (ResolutionStage::Connecting, ResolutionRequest::Abort),
            },
            (ResolutionStage::Discovering, _) => match event {
                ResolutionEvent::Discovered(Err(f)) => done(Err(Error::KubeError(f))),
                ResolutionEvent::Discovered(Ok((ar, scope))) => {
                    let namespace = api_namespace(scope, &self.cluster, local_ns);
                    done(Ok(NamespacedApi { ar, namespace }))
                },
                _ => (ResolutionStage::Discovering, ResolutionRequest::Abort),
            },
            (other, _) => (other, ResolutionRequest::Abort),
        }
    }
}

/// The API of a namespaced kind works in the `ResourceSync`'s namespace for a local
/// object, and in the reference's own namespace for an object of a remote cluster
/// (none when the reference names none, so that the remote client's default namespace
/// applies); the API of a cluster-scoped kind has no namespace.
pub proof fn lemma_resolved_namespace(r: ClusterResourceRef, local_ns: Seq<char>, ar: ApiResource, scope: Scope)
    ensures
        ({
            let (stage, request) = resolution_transition(
                r,
                local_ns,
                ResolutionStageView::Discovering,
                ResolutionEvent::Discovered(Ok((ar, scope))),
            );
            &&& stage == ResolutionStageView::Finished
            &&& request matches ResolutionRequestView::Done(Ok(api))
            &&& api.group == ar.group@ && api.version == ar.version@ && api.plural == ar.plural@
                && api.kind == ar.kind@ && api.api_version == ar.api_version@
            &&& scope == Scope::Cluster ==> api.namespace is None
            &&& scope == Scope::Namespaced && r.cluster is None ==> api.namespace == Some(local_ns)
            &&& scope == Scope::Namespaced && r.cluster is Some ==> api.namespace == match r.cluster->0.namespace {
                Some(ns) => Some(ns@),
                None => None::<Seq<char>>,
            }
        }),
{
}

/// A kubeconfig secret that may be read, whose key holds a UTF-8 kubeconfig, leads to a
/// connection to the cluster that exactly that text describes (the text decoded from
/// the key's bytes), with the reference's namespace, when it has one, in place of the
/// kubeconfig's default namespace.
pub proof fn lemma_connects_with_the_secrets_kubeconfig(
    r: ClusterResourceRef,
    local_ns: Seq<char>,
    secret_ns: Seq<char>,
    sec: Secret,
)
    requires
        r.cluster is Some,
        secret_ns == local_ns || secret_allows(sec.annotations, local_ns),
        sec.data matches Some(data) && secret_value(data@, r.cluster->0.kube_config.secret_ref.key@) matches Some(
            bytes,
        ) && kubeconfig_outcome(bytes) is Ok,
    ensures
        resolution_transition(
            r,
            local_ns,
            ResolutionStageView::ReadingSecret(secret_ns),
            ResolutionEvent::SecretRead(Ok(sec)),
        ) == (
            ResolutionStageView::Connecting,
            ResolutionRequestView::Connect(
                utf8_decoding(secret_value(sec.data->0@, r.cluster->0.kube_config.secret_ref.key@)->0)->Ok_0,
                opt_view(r.cluster->0.namespace),
            ),
        ),
{
}

} // verus!
