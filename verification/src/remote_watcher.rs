//! Watching a source or target object and asking for reconciliations when it changes.
//!
//! A watcher resolves the object's API, reads the object, asks for one reconciliation,
//! then follows a watch stream from the object's resource version. Any failure asks for
//! a reconciliation, waits for the backoff delay, and starts over.
use vstd::prelude::*;

use crate::error::{Error, ErrorView, KubeFailure};
use crate::filters::{last_modified_by, Filterable};
use crate::objects::ObjectMeta;
use crate::resource_extensions::{ObjectRef, ObjectRefView};
use crate::resources::{opt_view, ClusterResourceRef, ClusterResourceRefView, RESOURCE_SYNC_GROUP};

verus! {

/// Identifies one watcher: the watched object, on behalf of one `ResourceSync`.
#[derive(Debug)]
pub struct RemoteWatcherKey {
    pub object: ClusterResourceRef,
    pub resource_sync: ObjectRef,
}

pub struct RemoteWatcherKeyView {
    pub object: ClusterResourceRefView,
    pub resource_sync: ObjectRefView,
}

impl View for RemoteWatcherKey {
    type V = RemoteWatcherKeyView;

    open spec fn view(&self) -> RemoteWatcherKeyView {
        RemoteWatcherKeyView { object: self.object@, resource_sync: self.resource_sync@ }
    }
}

impl RemoteWatcherKey {
    /// A copy of the key.
    pub fn copy(&self) -> (r: RemoteWatcherKey)
        ensures
            r@ == self@,
    {
        RemoteWatcherKey { object: self.object.copy(), resource_sync: self.resource_sync.copy() }
    }

    /// Whether two keys identify the same watcher.
    pub fn same_as(&self, other: &RemoteWatcherKey) -> (r: bool)
        ensures
            r == (self@ == other@),
    {
        self.object.same_as(&other.object) && self.resource_sync.same_as(&other.resource_sync)
    }
}

/// One event of a watch stream, with what the watcher reads of it: the metadata of the
/// object, the version of a bookmark, the code of an error.
#[derive(Debug)]
pub enum WatchEvent {
    Added(ObjectMeta),
    Modified(ObjectMeta),
    Deleted(ObjectMeta),
    Bookmark(String),
    Error(u16),
}

/// What the watcher does about one event.
#[derive(Debug, Clone, Copy, PartialEq, Eq, Structural)]
pub enum Reaction {
    /// Ask for a reconciliation, and reset the backoff.
    Reconcile,
    /// Reset the backoff.
    ResetBackoff,
    /// Nothing.
    Ignore,
    /// Ask for a reconciliation, then wait for the next backoff delay.
    ReconcileAndWait,
}

/// The code with which the API server says that a resource version is too old.
pub const GONE: u16 = 410;

/// The reaction to an object event: the controller's own writes are not reconciled;
/// writes by others, or by an unknown writer, are.
pub open spec fn object_reaction(meta: ObjectMeta) -> Reaction {
    if last_modified_by(meta.managed_fields, RESOURCE_SYNC_GROUP@) == Some(true) {
        Reaction::Ignore
    } else {
        Reaction::Reconcile
    }
}

/// The reaction to `event` while watching from `resource_version`, and the version to
/// watch from next; an object event without a resource version is an error.
pub open spec fn event_reaction(resource_version: Seq<char>, event: WatchEvent) -> Result<
    (Reaction, Seq<char>),
    ErrorView,
> {
    match event {
        WatchEvent::Deleted(meta) => match meta.resource_version {
            Some(v) => Ok((Reaction::Reconcile, v@)),
            None => Err(ErrorView::ResourceVersionRequired),
        },
        WatchEvent::Added(meta) => match meta.resource_version {
            Some(v) => Ok((object_reaction(meta), v@)),
            None => Err(ErrorView::ResourceVersionRequired),
        },
        WatchEvent::Modified(meta) => match meta.resource_version {
            Some(v) => Ok((object_reaction(meta), v@)),
            None => Err(ErrorView::ResourceVersionRequired),
        },
        WatchEvent::Bookmark(v) => Ok((Reaction::ResetBackoff, v@)),
        WatchEvent::Error(code) => if code == GONE {
            Ok((Reaction::Ignore, "0"@))
        } else {
            Ok((Reaction::ReconcileAndWait, resource_version))
        },
    }
}

fn version_of_object(meta: &ObjectMeta) -> (r: Result<String, Error>)
    ensures
        match meta.resource_version {
            Some(v) => r matches Ok(x) && x@ == v@,
            None => r matches Err(Error::ResourceVersionRequired),
        },
{
    match &meta.resource_version {
        Some(v) => Ok(v.clone()),
        None => Err(Error::ResourceVersionRequired),
    }
}

fn reaction_to_object(meta: &ObjectMeta) -> (r: Reaction)
    ensures
        r == object_reaction(*meta),
{
    match meta.was_last_modified_by(RESOURCE_SYNC_GROUP) {
        Some(true) => Reaction::Ignore,
        _ => Reaction::Reconcile,
    }
}

/// What the watcher does about `event` while watching from `resource_version`, and the
/// version to watch from next.
pub fn react_to_watch_event(resource_version: String, event: &WatchEvent) -> (r: Result<
    (Reaction, String),
    Error,
>)
    ensures
        match event_reaction(resource_version@, *event) {
            Ok((reaction, v)) => r matches Ok(x) && x.0 == reaction && x.1@ == v,
            Err(e) => r matches Err(x) && x@ == e,
        },
{
    match event {
        WatchEvent::Deleted(meta) => {
            let v = version_of_object(meta)?;
            Ok((Reaction::Reconcile, v))
        },
        WatchEvent::Added(meta) => {
            let v = version_of_object(meta)?;
            Ok((reaction_to_object(meta), v))
        },
        WatchEvent::Modified(meta) => {
            let v = version_of_object(meta)?;
            Ok((reaction_to_object(meta), v))
        },
        WatchEvent::Bookmark(v) => Ok((Reaction::ResetBackoff, v.clone())),
        WatchEvent::Error(code) => {
            if *code == GONE {
                let zero = String::from_str("0");
                Ok((Reaction::Ignore, zero))
            } else {
                Ok((Reaction::ReconcileAndWait, resource_version))
            }
        },
    }
}

/// The field selector that restricts a watch to the object named `name`.
pub open spec fn name_selector(name: Seq<char>) -> Seq<char> {
    "metadata.name="@ + name
}

pub fn name_field_selector(name: &str) -> (r: String)
    ensures
        r@ == name_selector(name@),
{
    String::from_str("metadata.name=").concat(name)
}

// ---------------------------------------------------------------- the watcher's loop

/// Where a watcher stands.
#[derive(Debug)]
pub enum WatcherStage {
    /// About to start (again).
    Starting,
    /// Waiting for the API of the watched object.
    Resolving,
    /// Waiting for the watched object.
    Fetching,
    /// Waiting for a watch stream from this resource version to open.
    Opening(String),
    /// Reading a watch stream; this is the version to watch from next.
    Streaming(String),
}

pub enum WatcherStageView {
    Starting,
    Resolving,
    Fetching,
    Opening(Seq<char>),
    Streaming(Seq<char>),
}

impl View for WatcherStage {
    type V = WatcherStageView;

    open spec fn view(&self) -> WatcherStageView {
        match self {
            WatcherStage::Starting => WatcherStageView::Starting,
            WatcherStage::Resolving => WatcherStageView::Resolving,
            WatcherStage::Fetching => WatcherStageView::Fetching,
            WatcherStage::Opening(v) => WatcherStageView::Opening(v@),
            WatcherStage::Streaming(v) => WatcherStageView::Streaming(v@),
        }
    }
}

/// The answer to the watcher's last request.
#[derive(Debug)]
pub enum WatcherEvent {
    /// The watcher starts, or starts over.
    Start,
    ApiResolved(Result<(), Error>),
    /// The watched object was read; its resource version, if it has one.
    ObjectFetched(Result<Option<String>, KubeFailure>),
    WatchOpened(Result<(), KubeFailure>),
    /// The next item of the stream: an event, the end of the stream, or a failure.
    StreamItem(Result<Option<WatchEvent>, KubeFailure>),
}

/// What the watcher asks for next.
#[derive(Debug)]
pub enum WatcherRequest {
    /// Resolve the API of the watched object, for a `ResourceSync` in this namespace.
    ResolveApi(String),
    /// Read the watched object, by this name.
    GetObject(String),
    /// Open a watch stream from a resource version, with a field selector.
    OpenWatch(String, String),
    /// Read the next item of the stream.
    NextItem,
    /// Start over, after this failure.
    Restart(Error),
    /// The answer did not fit the request.
    Abort,
}

pub enum WatcherRequestView {
    ResolveApi(Seq<char>),
    GetObject(Seq<char>),
    OpenWatch(Seq<char>, Seq<char>),
    NextItem,
    Restart(ErrorView),
    Abort,
}

impl View for WatcherRequest {
    type V = WatcherRequestView;

    open spec fn view(&self) -> WatcherRequestView {
        match self {
            WatcherRequest::ResolveApi(ns) => WatcherRequestView::ResolveApi(ns@),
            WatcherRequest::GetObject(n) => WatcherRequestView::GetObject(n@),
            WatcherRequest::OpenWatch(v, s) => WatcherRequestView::OpenWatch(v@, s@),
            WatcherRequest::NextItem => WatcherRequestView::NextItem,
            WatcherRequest::Restart(e) => WatcherRequestView::Restart(e@),
            WatcherRequest::Abort => WatcherRequestView::Abort,
        }
    }
}

/// What the watcher does after an answer: whether it asks for a reconciliation, what
/// it does with its backoff (after asking), and its next request.
#[derive(Debug)]
pub struct WatcherAction {
    pub send_reconcile: bool,
    pub backoff: BackoffStep,
    pub next: WatcherRequest,
}

/// What happens to the watcher's backoff.
#[derive(Debug, Clone, Copy, PartialEq, Eq, Structural)]
pub enum BackoffStep {
    Keep,
    Reset,
    /// Wait for the next backoff delay.
    Wait,
}

pub struct WatcherActionView {
    pub send_reconcile: bool,
    pub backoff: BackoffStep,
    pub next: WatcherRequestView,
}

impl View for WatcherAction {
    type V = WatcherActionView;

    open spec fn view(&self) -> WatcherActionView {
        WatcherActionView {
            send_reconcile: self.send_reconcile,
            backoff: self.backoff,
            next: self.next@,
        }
    }
}

/// A failure with error `e`: ask for a reconciliation, wait for the backoff delay,
/// start over (reporting `e`).
pub open spec fn watcher_failure(e: ErrorView) -> (WatcherStageView, WatcherActionView) {
    (
        WatcherStageView::Starting,
        WatcherActionView {
            send_reconcile: true,
            backoff: BackoffStep::Wait,
            next: WatcherRequestView::Restart(e),
        },
    )
}

pub open spec fn quiet(next: WatcherRequestView) -> WatcherActionView {
    WatcherActionView { send_reconcile: false, backoff: BackoffStep::Keep, next }
}

/// The action for a reaction to a stream event; the stream is read on.
pub open spec fn reaction_action(reaction: Reaction) -> WatcherActionView {
    match reaction {
        Reaction::Reconcile => WatcherActionView {
            send_reconcile: true,
            backoff: BackoffStep::Reset,
            next: WatcherRequestView::NextItem,
        },
        Reaction::ResetBackoff => WatcherActionView {
            send_reconcile: false,
            backoff: BackoffStep::Reset,
            next: WatcherRequestView::NextItem,
        },
        Reaction::Ignore => quiet(WatcherRequestView::NextItem),
        Reaction::ReconcileAndWait => WatcherActionView {
            send_reconcile: true,
            backoff: BackoffStep::Wait,
            next: WatcherRequestView::NextItem,
        },
    }
}

/// One step of the watcher identified by `key`: the stage it moves to and what it does,
/// given the answer `event` in `stage`. An answer that does not fit the stage leaves
/// the stage as it is and aborts.
pub open spec fn watcher_transition(key: RemoteWatcherKey, stage: WatcherStageView, event: WatcherEvent) -> (
    WatcherStageView,
    WatcherActionView,
) {
    let abort = (stage, quiet(WatcherRequestView::Abort));
    match stage {
        WatcherStageView::Starting => match event {
            WatcherEvent::Start => match key.resource_sync.namespace {
                None => watcher_failure(ErrorView::NamespaceRequired),
                Some(ns) => (WatcherStageView::Resolving, quiet(WatcherRequestView::ResolveApi(ns@))),
            },
            _ => abort,
        },
        WatcherStageView::Resolving => match event {
            WatcherEvent::ApiResolved(Ok(_)) => (
                WatcherStageView::Fetching,
                quiet(WatcherRequestView::GetObject(key.object.resource_ref.name@)),
            ),
            WatcherEvent::ApiResolved(Err(e)) => watcher_failure(e@),
            _ => abort,
        },
        WatcherStageView::Fetching => match event {
            WatcherEvent::ObjectFetched(Ok(Some(v))) => (
                WatcherStageView::Opening(v@),
                WatcherActionView {
                    send_reconcile: true,
                    backoff: BackoffStep::Reset,
                    next: WatcherRequestView::OpenWatch(
                        v@,
                        name_selector(key.object.resource_ref.name@),
                    ),
                },
            ),
            WatcherEvent::ObjectFetched(Ok(None)) => watcher_failure(ErrorView::ResourceVersionRequired),
            WatcherEvent::ObjectFetched(Err(f)) => watcher_failure(ErrorView::KubeError(f.code, f.message@)),
            _ => abort,
        },
        WatcherStageView::Opening(v) => match event {
            WatcherEvent::WatchOpened(Ok(_)) => (
                WatcherStageView::Streaming(v),
                quiet(WatcherRequestView::NextItem),
            ),
            WatcherEvent::WatchOpened(Err(f)) => watcher_failure(ErrorView::KubeError(f.code, f.message@)),
            _ => abort,
        },
        WatcherStageView::Streaming(v) => match event {
            WatcherEvent::StreamItem(Err(f)) => watcher_failure(ErrorView::KubeError(f.code, f.message@)),
            WatcherEvent::StreamItem(Ok(None)) => (
                WatcherStageView::Opening(v),
                quiet(
                    WatcherRequestView::OpenWatch(v, name_selector(key.object.resource_ref.name@)),
                ),
            ),
            WatcherEvent::StreamItem(Ok(Some(e))) => match event_reaction(v, e) {
                Err(e) => watcher_failure(e),
                Ok((reaction, next)) => (WatcherStageView::Streaming(next), reaction_action(reaction)),
            },
            _ => abort,
        },
    }
}

fn fail(e: Error) -> (r: (WatcherStage, WatcherAction))
    ensures
        (r.0@, r.1@) == watcher_failure(e@),
{
    (
        WatcherStage::Starting,
        WatcherAction { send_reconcile: true, backoff: BackoffStep::Wait, next: WatcherRequest::Restart(e) },
    )
}

fn stay(stage: WatcherStage, next: WatcherRequest) -> (r: (WatcherStage, WatcherAction))
    ensures
        r.0@ == stage@,
        r.1@ == quiet(next@),
{
    (stage, WatcherAction { send_reconcile: false, backoff: BackoffStep::Keep, next })
}

fn action_for(reaction: Reaction) -> (r: WatcherAction)
    ensures
        r@ == reaction_action(reaction),
{
    match reaction {
        Reaction::Reconcile => WatcherAction {
            send_reconcile: true,
            backoff: BackoffStep::Reset,
            next: WatcherRequest::NextItem,
        },
        Reaction::ResetBackoff => WatcherAction {
            send_reconcile: false,
            backoff: BackoffStep::Reset,
            next: WatcherRequest::NextItem,
        },
        Reaction::Ignore => WatcherAction {
            send_reconcile: false,
            backoff: BackoffStep::Keep,
            next: WatcherRequest::NextItem,
        },
        Reaction::ReconcileAndWait => WatcherAction {
            send_reconcile: true,
            backoff: BackoffStep::Wait,
            next: WatcherRequest::NextItem,
        },
    }
}

/// One step of the watcher identified by `key`: given the answer `event` to its last
/// request in `stage`, the stage that follows and what the watcher does.
pub fn watcher_step(key: &RemoteWatcherKey, stage: WatcherStage, event: WatcherEvent) -> (r: (
    WatcherStage,
    WatcherAction,
))
    ensures
        (r.0@, r.1@) == watcher_transition(*key, stage@, event),
{
    match stage {
        WatcherStage::Starting => match event {
            WatcherEvent::Start => match &key.resource_sync.namespace {
                None => fail(Error::NamespaceRequired),
                Some(ns) => stay(WatcherStage::Resolving, WatcherRequest::ResolveApi(ns.clone())),
            },
            _ => stay(WatcherStage::Starting, WatcherRequest::Abort),
        },
        WatcherStage::Resolving => match event {
            WatcherEvent::ApiResolved(Ok(_)) => stay(
                WatcherStage::Fetching,
                WatcherRequest::GetObject(key.object.resource_ref.name.clone()),
            ),
            WatcherEvent::ApiResolved(Err(e)) => fail(e),
            _ => stay(WatcherStage::Resolving, WatcherRequest::Abort),
        },
        WatcherStage::Fetching => match event {
            WatcherEvent::ObjectFetched(Ok(Some(v))) => {
                let selector = name_field_selector(key.object.resource_ref.name.as_str());
                let from = v.clone();
                (
                    WatcherStage::Opening(v),
                    WatcherAction {
                        send_reconcile: true,
                        backoff: BackoffStep::Reset,
                        next: WatcherRequest::OpenWatch(from, selector),
                    },
                )
            },
            WatcherEvent::ObjectFetched(Ok(None)) => fail(Error::ResourceVersionRequired),
            WatcherEvent::ObjectFetched(Err(f)) => fail(Error::KubeError(f)),
            _ => stay(WatcherStage::Fetching, WatcherRequest::Abort),
        },
        WatcherStage::Opening(v) => match event {
            WatcherEvent::WatchOpened(Ok(_)) => stay(WatcherStage::Streaming(v), WatcherRequest::NextItem),
            WatcherEvent::WatchOpened(Err(f)) => fail(Error::KubeError(f)),
            _ => stay(WatcherStage::Opening(v), WatcherRequest::Abort),
        },
        WatcherStage::Streaming(v) => match event {
            WatcherEvent::StreamItem(Err(f)) => fail(Error::KubeError(f)),
            WatcherEvent::StreamItem(Ok(None)) => {
                let selector = name_field_selector(key.object.resource_ref.name.as_str());
                let from = v.clone();
                stay(WatcherStage::Opening(v), WatcherRequest::OpenWatch(from, selector))
            },
            WatcherEvent::StreamItem(Ok(Some(e))) => match react_to_watch_event(v, &e) {
                Err(e) => fail(e),
                Ok((reaction, next)) => (WatcherStage::Streaming(next), action_for(reaction)),
            },
            _ => stay(WatcherStage::Streaming(v), WatcherRequest::Abort),
        },
    }
}

// ---------------------------------------------------------------- laws

/// The controller's own writes never cause a reconciliation; a deletion always does, and
/// so does a change by another writer or by a writer that cannot be told. Watching goes
/// on from the event's resource version, from a bookmark's version, and from the
/// beginning when the version has expired.
pub proof fn lemma_watch_reactions(resource_version: Seq<char>, meta: ObjectMeta, bookmark: String)
    requires
        meta.resource_version is Some,
    ensures
        event_reaction(resource_version, WatchEvent::Deleted(meta)) == Ok::<(Reaction, Seq<char>), ErrorView>(
            (Reaction::Reconcile, meta.resource_version->0@),
        ),
        last_modified_by(meta.managed_fields, RESOURCE_SYNC_GROUP@) == Some(true) ==> {
            &&& event_reaction(resource_version, WatchEvent::Added(meta)) == Ok::<
                (Reaction, Seq<char>),
                ErrorView,
            >((Reaction::Ignore, meta.resource_version->0@))
            &&& event_reaction(resource_version, WatchEvent::Modified(meta)) == Ok::<
                (Reaction, Seq<char>),
                ErrorView,
            >((Reaction::Ignore, meta.resource_version->0@))
        },
        last_modified_by(meta.managed_fields, RESOURCE_SYNC_GROUP@) != Some(true) ==> {
            &&& event_reaction(resource_version, WatchEvent::Added(meta)) == Ok::<
                (Reaction, Seq<char>),
                ErrorView,
            >((Reaction::Reconcile, meta.resource_version->0@))
            &&& event_reaction(resource_version, WatchEvent::Modified(meta)) == Ok::<
                (Reaction, Seq<char>),
                ErrorView,
            >((Reaction::Reconcile, meta.resource_version->0@))
        },
        event_reaction(resource_version, WatchEvent::Bookmark(bookmark)) == Ok::<
            (Reaction, Seq<char>),
            ErrorView,
        >((Reaction::ResetBackoff, bookmark@)),
        event_reaction(resource_version, WatchEvent::Error(GONE)) == Ok::<(Reaction, Seq<char>), ErrorView>(
            (Reaction::Ignore, "0"@),
        ),
{
}

/// Every failure of a watcher asks for a reconciliation, waits for the backoff delay
/// and starts over, reporting its error: a missing namespace, an object without a
/// resource version, or the client's error; a watcher only ever waits after asking for
/// a reconciliation; and
/// once it has read its object it asks for a reconciliation before it watches from the
/// object's version, restricted to the object's name.
pub proof fn lemma_watcher_failures_reconcile(
    key: RemoteWatcherKey,
    stage: WatcherStageView,
    event: WatcherEvent,
    version: String,
)
    ensures
        ({
            let (next, action) = watcher_transition(key, stage, event);
            &&& (next is Starting && !(action.next is Abort)) ==> action.next is Restart && (next, action)
                == watcher_failure(action.next->Restart_0)
            &&& action.backoff == BackoffStep::Wait ==> action.send_reconcile
        }),
        watcher_transition(key, WatcherStageView::Fetching, WatcherEvent::ObjectFetched(Ok(Some(version))))
            == (
            WatcherStageView::Opening(version@),
            WatcherActionView {
                send_reconcile: true,
                backoff: BackoffStep::Reset,
                next: WatcherRequestView::OpenWatch(
                    version@,
                    name_selector(key.object.resource_ref.name@),
                ),
            },
        ),
{
}

/// Whether an event carries what the watcher needs: object events carry a resource
/// version.
pub open spec fn event_complete(event: WatchEvent) -> bool {
    match event {
        WatchEvent::Added(meta) => meta.resource_version is Some,
        WatchEvent::Modified(meta) => meta.resource_version is Some,
        WatchEvent::Deleted(meta) => meta.resource_version is Some,
        _ => true,
    }
}

/// The version a watch from `v` goes on from after `events`: that of the last object
/// event or bookmark, `0` after an expired version, and unchanged after other errors.
pub open spec fn folded_version(v: Seq<char>, events: Seq<WatchEvent>) -> Seq<char>
    decreases events.len(),
{
    if events.len() == 0 {
        v
    } else {
        let before = folded_version(v, events.drop_last());
        match events.last() {
            WatchEvent::Added(meta) => meta.resource_version->0@,
            WatchEvent::Modified(meta) => meta.resource_version->0@,
            WatchEvent::Deleted(meta) => meta.resource_version->0@,
            WatchEvent::Bookmark(b) => b@,
            WatchEvent::Error(code) => if code == GONE {
                "0"@
            } else {
                before
            },
        }
    }
}

/// Whether an event asks for a reconciliation: a deletion, an addition or change not
/// written last by the controller, or an error other than an expired version.
pub open spec fn event_reconciles(event: WatchEvent) -> bool {
    match event {
        WatchEvent::Deleted(_) => true,
        WatchEvent::Added(meta) => last_modified_by(meta.managed_fields, RESOURCE_SYNC_GROUP@) != Some(true),
        WatchEvent::Modified(meta) => last_modified_by(meta.managed_fields, RESOURCE_SYNC_GROUP@) != Some(
            true,
        ),
        WatchEvent::Bookmark(_) => false,
        WatchEvent::Error(code) => code != GONE,
    }
}

/// How many of the events ask for a reconciliation.
pub open spec fn reconcile_count(events: Seq<WatchEvent>) -> nat
    decreases events.len(),
{
    if events.len() == 0 {
        0
    } else {
        reconcile_count(events.drop_last()) + if event_reconciles(events.last()) {
            1nat
        } else {
            0nat
        }
    }
}

/// A watcher streaming from `v` fed `events` one by one: the stage it ends in, and how
/// many reconciliations it asked for.
pub open spec fn stream_run(key: RemoteWatcherKey, v: Seq<char>, events: Seq<WatchEvent>) -> (
    WatcherStageView,
    nat,
)
    decreases events.len(),
{
    if events.len() == 0 {
        (WatcherStageView::Streaming(v), 0)
    } else {
        let (stage, n) = stream_run(key, v, events.drop_last());
        let (next, action) = watcher_transition(
            key,
            stage,
            WatcherEvent::StreamItem(Ok(Some(events.last()))),
        );
        (
            next,
            n + if action.send_reconcile {
                1nat
            } else {
                0nat
            },
        )
    }
}

/// A watch from `v` whose events all carry what they need keeps streaming through them:
/// it goes on from the folded version, asks for one reconciliation for each deletion,
/// each addition or change not written last by the controller, and each error other
/// than an expired version; when the stream ends, it opens a new watch from that
/// version, restricted to the object's name.
pub proof fn lemma_watch_stream_folds(key: RemoteWatcherKey, v: Seq<char>, events: Seq<WatchEvent>)
    requires
        forall|i: int| 0 <= i < events.len() ==> event_complete(#[trigger] events[i]),
    ensures
        stream_run(key, v, events) == (
            WatcherStageView::Streaming(folded_version(v, events)),
            reconcile_count(events),
        ),
        watcher_transition(
            key,
            WatcherStageView::Streaming(folded_version(v, events)),
            WatcherEvent::StreamItem(Ok(None)),
        ) == (
            WatcherStageView::Opening(folded_version(v, events)),
            quiet(
                WatcherRequestView::OpenWatch(
                    folded_version(v, events),
                    name_selector(key.object.resource_ref.name@),
                ),
            ),
        ),
    decreases events.len(),
{
    if events.len() > 0 {
        let init = events.drop_last();
        assert forall|i: int| 0 <= i < init.len() implies event_complete(#[trigger] init[i]) by {
            assert(init[i] == events[i]);
        }
        lemma_watch_stream_folds(key, v, init);
        assert(event_complete(events[events.len() - 1]));
    }
}

/// A failed start says why: a `ResourceSync` without a namespace gives
/// `NamespaceRequired` before any request, a failed API resolution its own error, a
/// failed read or watch the client's error, and an object without a resource version
/// `ResourceVersionRequired`; the reconciliation is asked for in each case.
pub proof fn lemma_watcher_start_failures(key: RemoteWatcherKey, e: Error, f: KubeFailure)
    ensures
        key.resource_sync.namespace is None ==> watcher_transition(
            key,
            WatcherStageView::Starting,
            WatcherEvent::Start,
        ) == watcher_failure(ErrorView::NamespaceRequired),
        watcher_transition(key, WatcherStageView::Resolving, WatcherEvent::ApiResolved(Err(e)))
            == watcher_failure(e@),
        watcher_transition(key, WatcherStageView::Fetching, WatcherEvent::ObjectFetched(Err(f)))
            == watcher_failure(ErrorView::KubeError(f.code, f.message@)),
        watcher_transition(key, WatcherStageView::Fetching, WatcherEvent::ObjectFetched(Ok(None)))
            == watcher_failure(ErrorView::ResourceVersionRequired),
        watcher_failure(e@).1.send_reconcile,
{
}

} // verus!
