//! The reconciliation of a `ResourceSync`, as a state machine that says which request
//! to make next and what to do with each answer, and the status it reports.
use vstd::prelude::*;

use crate::error::{Error, ErrorView, KubeFailure};
use crate::json::{
    clone_json, entries_view, get_key, index_key, lemma_view_parts, obj_insert, obj_set, Json,
    JsonView,
};
use crate::mapping::{
    apply_mappings_spec, clone_resource, clone_spec, lemma_normalized_get,
    lemma_object_meta_fields_distinct, mapping_views, normalize_metadata, normalized_member,
    entry_fields, normalized_entries, owner_reference_fields,
    normalized_metadata, object_meta_fields, opt_str_view, try_apply_mappings,
    MappingStep,
};
use crate::objects::{now, ApiResource, Condition, DynamicObject, DynamicObjectView, Time};
use crate::resource_extensions::{finalizer_views, NamespacedApi, NamespacedApiView};
use crate::resources::{
    annotation_value, opt_view, ResourceSync, ResourceSyncStatus, DISABLE_TARGET_DELETION_ANNOTATION,
    FINALIZER, FORCE_DELETE_ANNOTATION, RESOURCE_SYNC_GROUP,
};
use crate::util::{strings_view, without_item, WithItemAdded, WithItemRemoved};

verus! {

/// What the controller runtime should do after a reconciliation.
#[derive(Debug, Clone, Copy, PartialEq, Eq, Structural)]
pub enum Action {
    /// Wait for the next change of a watched object.
    AwaitChange,
    /// Reconcile again after `secs` seconds and `nanos` nanoseconds; `nanos` stays
    /// below one second.
    Requeue { secs: u64, nanos: u32 },
}

impl Action {
    /// Wait for the next change.
    pub fn await_change() -> (r: Action)
        ensures
            r == Action::AwaitChange,
    {
        Action::AwaitChange
    }

    /// Reconcile again after `secs` seconds.
    pub fn requeue_secs(secs: u64) -> (r: Action)
        ensures
            r == (Action::Requeue { secs, nanos: 0 }),
    {
        Action::Requeue { secs, nanos: 0 }
    }

    /// Reconcile again after `millis` milliseconds.
    pub fn requeue_millis(millis: u64) -> (r: Action)
        ensures
            r == (Action::Requeue { secs: millis / 1000, nanos: ((millis % 1000) * 1_000_000) as u32 }),
            r matches Action::Requeue { secs, nanos } && secs * 1_000_000_000 + nanos == millis * 1_000_000,
    {
        let secs = millis / 1000;
        let rest = millis % 1000;
        assert(rest * 1_000_000 < 1_000_000_000) by (nonlinear_arith)
            requires
                rest < 1000,
        ;
        assert(secs * 1_000_000_000 + rest * 1_000_000 == millis * 1_000_000) by (nonlinear_arith)
            requires
                secs == millis / 1000,
                rest == millis % 1000,
        ;
        Action::Requeue { secs, nanos: (rest * 1_000_000) as u32 }
    }
}

/// The type of the status condition that reports failing syncs.
pub const RESOURCE_SYNC_FAILING_CONDITION: &'static str = "ResourceSyncFailing";

/// The reason given when a sync succeeded.
pub const RESOURCE_SYNC_SUCCEEDED_REASON: &'static str = "ResourceSyncSucceeded";

/// The API version of the `ResourceSync` kind.
pub const RESOURCE_SYNC_API_VERSION: &'static str = "sinker.influxdata.io/v1alpha1";

/// The `ResourceSync` kind.
pub const RESOURCE_SYNC_KIND: &'static str = "ResourceSync";

/// How long to wait before retrying a failed reconciliation.
pub fn error_policy(resource_sync: &ResourceSync, error: &Error) -> (r: Action)
    ensures
        r == (Action::Requeue { secs: 5, nanos: 0 }),
{
    Action::requeue_secs(5)
}

// ---------------------------------------------------------------- status

pub struct ConditionView {
    pub last_transition_time: Time,
    pub message: Seq<char>,
    pub observed_generation: Option<i64>,
    pub reason: Seq<char>,
    pub status: Seq<char>,
    pub type_: Seq<char>,
}

impl View for Condition {
    type V = ConditionView;

    open spec fn view(&self) -> ConditionView {
        ConditionView {
            last_transition_time: self.last_transition_time,
            message: self.message@,
            observed_generation: self.observed_generation,
            reason: self.reason@,
            status: self.status@,
            type_: self.type_@,
        }
    }
}

/// The conditions of a status, when it has some.
pub open spec fn conditions_view(status: ResourceSyncStatus) -> Option<Seq<ConditionView>> {
    match status.conditions {
        Some(c) => Some(Seq::new(c@.len(), |i: int| c@[i]@)),
        None => None,
    }
}

pub open spec fn status_view(status: Option<ResourceSyncStatus>) -> Option<Option<Seq<ConditionView>>> {
    match status {
        Some(s) => Some(conditions_view(s)),
        None => None,
    }
}

/// The transition time of the failing condition in `status`, when that condition
/// already has the value `new_status`.
pub open spec fn kept_transition_time(
    status: Option<Option<Seq<ConditionView>>>,
    new_status: Seq<char>,
) -> Option<Time> {
    match status {
        Some(Some(c)) => {
            let p = crate::json::first_from(
                0,
                c.len() as int,
                |k: int| c[k].type_ == RESOURCE_SYNC_FAILING_CONDITION@,
            );
            if p < c.len() && c[p].status == new_status {
                Some(c[p].last_transition_time)
            } else {
                None
            }
        },
        _ => None,
    }
}

/// The transition time of the failing condition: carried over while its value is
/// unchanged, `now` when it flips.
pub open spec fn transition_time(
    status: Option<Option<Seq<ConditionView>>>,
    new_status: Seq<char>,
    now: Time,
) -> Time {
    match kept_transition_time(status, new_status) {
        Some(t) => t,
        None => now,
    }
}

/// [`sync_failing_transition_time`] at the time `now`.
pub fn sync_failing_transition_time_at(
    status: &Option<ResourceSyncStatus>,
    new_status: &str,
    now: Time,
) -> (r: Time)
    ensures
        r == transition_time(status_view(*status), new_status@, now),
{
    match status {
        Some(s) => match &s.conditions {
            Some(c) => {
                let ghost cv = Seq::new(c@.len(), |i: int| c@[i]@);
                assert(status_view(*status) == Some(Some(cv)));
                let ghost p = |k: int| cv[k].type_ == RESOURCE_SYNC_FAILING_CONDITION@;
                let mut i: usize = 0;
                while i < c.len()
                    invariant
                        cv == Seq::new(c@.len(), |i: int| c@[i]@),
                        status_view(*status) == Some(Some(cv)),
                        p == (|k: int| cv[k].type_ == RESOURCE_SYNC_FAILING_CONDITION@),
                        i <= c.len(),
                        forall|k: int| 0 <= k < i ==> !#[trigger] p(k),
                    decreases c.len() - i,
                {
                    if crate::text::str_eq(c[i].type_.as_str(), RESOURCE_SYNC_FAILING_CONDITION) {
                        proof { crate::json::lemma_first_from_is(0, cv.len() as int, p, i as int); }
                        if crate::text::str_eq(c[i].status.as_str(), new_status) {
                            return c[i].last_transition_time;
                        } else {
                            return now;
                        }
                    }
                    i = i + 1;
                }
                proof { crate::json::lemma_first_from_is(0, cv.len() as int, p, cv.len() as int); }
                now
            },
            None => now,
        },
        None => now,
    }
}

/// The transition time for the failing condition taking the value `new_status`: the
/// time recorded in `status` while the value is unchanged, otherwise the current time.
pub fn sync_failing_transition_time(status: &Option<ResourceSyncStatus>, new_status: &str) -> (r: Time)
    ensures
        exists|t: Time| r == transition_time(status_view(*status), new_status@, t),
{
    let t = now();
    sync_failing_transition_time_at(status, new_status, t)
}

/// The failing condition with the given value, reason and message.
pub open spec fn failing_condition(
    resource_sync: ResourceSync,
    live_status: Option<Option<Seq<ConditionView>>>,
    status: Seq<char>,
    reason: Seq<char>,
    message: Seq<char>,
    now: Time,
) -> ConditionView {
    ConditionView {
        last_transition_time: transition_time(live_status, status, now),
        message,
        observed_generation: resource_sync.metadata.generation,
        reason,
        status,
        type_: RESOURCE_SYNC_FAILING_CONDITION@,
    }
}

/// Builds the failing condition at the time `now`.
pub fn sync_failing_condition(
    resource_sync: &ResourceSync,
    live_status: &Option<ResourceSyncStatus>,
    status: &str,
    reason: &str,
    message: String,
    now: Time,
) -> (r: Condition)
    ensures
        r@ == failing_condition(
            *resource_sync,
            status_view(*live_status),
            status@,
            reason@,
            message@,
            now,
        ),
{
    Condition {
        last_transition_time: sync_failing_transition_time_at(live_status, status, now),
        message,
        observed_generation: resource_sync.metadata.generation,
        reason: String::from_str(reason),
        status: String::from_str(status),
        type_: String::from_str(RESOURCE_SYNC_FAILING_CONDITION),
    }
}

/// The status to write after a reconciliation, or `None` when nothing is written: a
/// failure sets the failing condition to `True` with the error's message; a success
/// resets it to `False`, except for a deleted `ResourceSync`, whose status is left
/// alone.
pub open spec fn status_after(
    resource_sync: ResourceSync,
    live_status: Option<Option<Seq<ConditionView>>>,
    result: Result<Action, ErrorView>,
    now: Time,
) -> Option<Option<Seq<ConditionView>>> {
    match result {
        Err(e) => Some(
            Some(
                seq![
                    failing_condition(
                        resource_sync,
                        live_status,
                        "True"@,
                        RESOURCE_SYNC_FAILING_CONDITION@,
                        crate::error::error_message(e),
                        now,
                    ),
                ],
            ),
        ),
        Ok(_) => if resource_sync.metadata.deletion_timestamp is None {
            Some(
                Some(
                    seq![
                        failing_condition(
                            resource_sync,
                            live_status,
                            "False"@,
                            RESOURCE_SYNC_SUCCEEDED_REASON@,
                            "Sync succeeded"@,
                            now,
                        ),
                    ],
                ),
            )
        } else {
            None
        },
    }
}

pub open spec fn result_view(r: Result<Action, Error>) -> Result<Action, ErrorView> {
    match r {
        Ok(a) => Ok(a),
        Err(e) => Err(e@),
    }
}

/// [`reconcile_status`] at the time `now`.
pub fn reconcile_status_at(
    resource_sync: &ResourceSync,
    live_status: &Option<ResourceSyncStatus>,
    result: &Result<Action, Error>,
    now: Time,
) -> (r: Option<ResourceSyncStatus>)
    ensures
        status_view(r) == status_after(
            *resource_sync,
            status_view(*live_status),
            result_view(*result),
            now,
        ),
{
    let condition = match result {
        Err(e) => sync_failing_condition(
            resource_sync,
            live_status,
            "True",
            RESOURCE_SYNC_FAILING_CONDITION,
            e.message(),
            now,
        ),
        Ok(_) => {
            if resource_sync.metadata.deletion_timestamp.is_some() {
                return None;
            }
            sync_failing_condition(
                resource_sync,
                live_status,
                "False",
                RESOURCE_SYNC_SUCCEEDED_REASON,
                String::from_str("Sync succeeded"),
                now,
            )
        },
    };
    let mut conditions: Vec<Condition> = Vec::new();
    conditions.push(condition);
    let r = Some(ResourceSyncStatus { conditions: Some(conditions) });
    proof {
        assert(Seq::new(conditions@.len(), |i: int| conditions@[i]@) =~= seq![condition@]);
    }
    r
}

/// The status to write after a reconciliation with `result`, computed from the live
/// status; the transition time uses the current time when the condition flips.
pub fn reconcile_status(
    resource_sync: &ResourceSync,
    live_status: &Option<ResourceSyncStatus>,
    result: &Result<Action, Error>,
) -> (r: Option<ResourceSyncStatus>)
    ensures
        exists|t: Time| status_view(r) == status_after(
            *resource_sync,
            status_view(*live_status),
            result_view(*result),
            t,
        ),
{
    let t = now();
    reconcile_status_at(resource_sync, live_status, result, t)
}

// ---------------------------------------------------------------- reconciliation

/// How the deletion of the target reaches the objects it owns.
#[derive(Debug, Clone, Copy, PartialEq, Eq, Structural)]
pub enum Propagation {
    Background,
    Foreground,
}

/// What the reconciliation reads of an existing target object.
#[derive(Debug)]
pub struct TargetMeta {
    pub deletion_timestamp: Option<Time>,
    pub finalizers: Option<Vec<String>>,
}

/// The answer to the last [`Command`].
#[derive(Debug)]
pub enum Event {
    /// A reconciliation begins.
    Start,
    /// The API of the target, then of the source, was resolved or could not be.
    ApiResolved(Result<NamespacedApi, Error>),
    WatchesStopped,
    WatchesStarted,
    FinalizersPatched(Result<(), KubeFailure>),
    TargetFetched(Result<TargetMeta, KubeFailure>),
    TargetDeleted(Result<(), KubeFailure>),
    SourceFetched(Result<DynamicObject, KubeFailure>),
    TargetApplied(Result<(), KubeFailure>),
    StatusRead(Result<Option<ResourceSyncStatus>, KubeFailure>),
    StatusWritten(Result<(), KubeFailure>),
}

/// What the reconciliation asks for next.
#[derive(Debug)]
pub enum Command {
    /// Resolve the API of the target, for a `ResourceSync` in this namespace.
    ResolveTargetApi(String),
    /// Resolve the API of the source, for a `ResourceSync` in this namespace.
    ResolveSourceApi(String),
    /// Stop the watches on source and target, where they run.
    StopWatches,
    /// Start the watches on source and target, where they do not run yet.
    StartWatches,
    /// Merge-patch the `ResourceSync`'s finalizers to this list.
    PatchFinalizers(Vec<String>),
    /// Read the target object.
    GetTarget,
    /// Delete the target object.
    DeleteTarget(Propagation),
    /// Read the source object.
    GetSource,
    /// Apply the target object server-side, as the field manager named by the text,
    /// forcing conflicts when the flag is set.
    ApplyTarget(DynamicObject, String, bool),
    /// Read the live status of the `ResourceSync`.
    ReadStatus,
    /// Merge-patch the status of the `ResourceSync`.
    WriteStatus(ResourceSyncStatus),
    /// The reconciliation is over, with this result.
    Done(Result<Action, Error>),
    /// The reconciliation cannot go on: the answer did not fit the question, or the
    /// mappings build an inner resource whose annotations or labels are not all strings.
    Abort,
}

/// Where a reconciliation stands: which answer it waits for, with what it must keep.
#[derive(Debug)]
pub enum Stage {
    Start,
    ResolvingTarget,
    /// Holds the target's API.
    ResolvingSource(NamespacedApi),
    StoppingWatches,
    RemovingFinalizer,
    AddingFinalizer,
    FetchingTarget,
    DeletingTarget,
    StartingWatches,
    /// Holds the kind of the source and the target's API.
    FetchingSource(String, NamespacedApi),
    ApplyingTarget,
    /// Holds the result of the reconciliation proper.
    ReadingStatus(Result<Action, Error>),
    WritingStatus(Result<Action, Error>),
    Finished,
}

pub enum StageView {
    Start,
    ResolvingTarget,
    ResolvingSource(NamespacedApiView),
    StoppingWatches,
    RemovingFinalizer,
    AddingFinalizer,
    FetchingTarget,
    DeletingTarget,
    StartingWatches,
    FetchingSource(Seq<char>, NamespacedApiView),
    ApplyingTarget,
    ReadingStatus(Result<Action, ErrorView>),
    WritingStatus(Result<Action, ErrorView>),
    Finished,
}

impl View for Stage {
    type V = StageView;

    open spec fn view(&self) -> StageView {
        match self {
            Stage::Start => StageView::Start,
            Stage::ResolvingTarget => StageView::ResolvingTarget,
            Stage::ResolvingSource(t) => StageView::ResolvingSource(t@),
            Stage::StoppingWatches => StageView::StoppingWatches,
            Stage::RemovingFinalizer => StageView::RemovingFinalizer,
            Stage::AddingFinalizer => StageView::AddingFinalizer,
            Stage::FetchingTarget => StageView::FetchingTarget,
            Stage::DeletingTarget => StageView::DeletingTarget,
            Stage::StartingWatches => StageView::StartingWatches,
            Stage::FetchingSource(k, t) => StageView::FetchingSource(k@, t@),
            Stage::ApplyingTarget => StageView::ApplyingTarget,
            Stage::ReadingStatus(r) => StageView::ReadingStatus(result_view(*r)),
            Stage::WritingStatus(r) => StageView::WritingStatus(result_view(*r)),
            Stage::Finished => StageView::Finished,
        }
    }
}

pub enum CommandView {
    ResolveTargetApi(Seq<char>),
    ResolveSourceApi(Seq<char>),
    StopWatches,
    StartWatches,
    PatchFinalizers(Seq<Seq<char>>),
    GetTarget,
    DeleteTarget(Propagation),
    GetSource,
    ApplyTarget(DynamicObjectView, Seq<char>, bool),
    ReadStatus,
    WriteStatus(Option<Seq<ConditionView>>),
    Done(Result<Action, ErrorView>),
    Abort,
}

impl View for Command {
    type V = CommandView;

    open spec fn view(&self) -> CommandView {
        match self {
            Command::ResolveTargetApi(ns) => CommandView::ResolveTargetApi(ns@),
            Command::ResolveSourceApi(ns) => CommandView::ResolveSourceApi(ns@),
            Command::StopWatches => CommandView::StopWatches,
            Command::StartWatches => CommandView::StartWatches,
            Command::PatchFinalizers(f) => CommandView::PatchFinalizers(strings_view(f@)),
            Command::GetTarget => CommandView::GetTarget,
            Command::DeleteTarget(p) => CommandView::DeleteTarget(*p),
            Command::GetSource => CommandView::GetSource,
            Command::ApplyTarget(t, manager, force) => CommandView::ApplyTarget(t@, manager@, *force),
            Command::ReadStatus => CommandView::ReadStatus,
            Command::WriteStatus(st) => CommandView::WriteStatus(conditions_view(*st)),
            Command::Done(r) => CommandView::Done(result_view(*r)),
            Command::Abort => CommandView::Abort,
        }
    }
}

/// Whether deletion of the `ResourceSync` has been requested.
pub open spec fn is_deleted(rs: ResourceSync) -> bool {
    rs.metadata.deletion_timestamp is Some
}

/// Whether the `ResourceSync` carries the controller's finalizer.
pub open spec fn has_finalizer(rs: ResourceSync) -> bool {
    finalizer_views(rs.metadata.finalizers).contains(FINALIZER@)
}

/// Whether the annotation `annotation` of the `ResourceSync` reads `true`.
pub open spec fn option_enabled(rs: ResourceSync, annotation: Seq<char>) -> bool {
    annotation_value(rs.metadata.annotations, annotation) == Some("true"@)
}

/// The text of an optional string, empty when absent.
pub open spec fn text_or_empty(o: Option<String>) -> Seq<char> {
    match o {
        Some(s) => s@,
        None => Seq::empty(),
    }
}

/// The error of a failed API request.
pub open spec fn kube_error(f: KubeFailure) -> ErrorView {
    ErrorView::KubeError(f.code, f.message@)
}

/// The end of the reconciliation proper: the live status is read, to report the result,
/// unless a deleted `ResourceSync` was handled successfully.
pub open spec fn finish(rs: ResourceSync, result: Result<Action, ErrorView>) -> (StageView, CommandView) {
    if result is Err || !is_deleted(rs) {
        (StageView::ReadingStatus(result), CommandView::ReadStatus)
    } else {
        (StageView::Finished, CommandView::Done(result))
    }
}

/// A failure to resolve an API: a deleting `ResourceSync` with the force-delete option
/// drops its finalizer anyway; otherwise the failure is the result.
pub open spec fn api_failure(rs: ResourceSync, e: ErrorView) -> (StageView, CommandView) {
    if option_enabled(rs, FORCE_DELETE_ANNOTATION@) && is_deleted(rs) {
        (StageView::StoppingWatches, CommandView::StopWatches)
    } else {
        finish(rs, Err(e))
    }
}

/// The finalizers without the controller's own.
pub open spec fn finalizers_without_ours(rs: ResourceSync) -> Seq<Seq<char>> {
    without_item(finalizer_views(rs.metadata.finalizers), FINALIZER@)
}

/// The finalizers with the controller's own appended.
pub open spec fn finalizers_with_ours(rs: ResourceSync) -> Seq<Seq<char>> {
    finalizer_views(rs.metadata.finalizers).push(FINALIZER@)
}

/// What follows once both APIs are known: cleanup of a deleted `ResourceSync`, adding
/// the finalizer to a new one, or syncing the target.
pub open spec fn after_apis(rs: ResourceSync, source_kind: Seq<char>, target: NamespacedApiView) -> (
    StageView,
    CommandView,
) {
    if is_deleted(rs) {
        if !has_finalizer(rs) {
            finish(rs, Ok(Action::AwaitChange))
        } else if option_enabled(rs, DISABLE_TARGET_DELETION_ANNOTATION@) {
            (StageView::StoppingWatches, CommandView::StopWatches)
        } else {
            (StageView::FetchingTarget, CommandView::GetTarget)
        }
    } else if !has_finalizer(rs) {
        (StageView::AddingFinalizer, CommandView::PatchFinalizers(finalizers_with_ours(rs)))
    } else {
        (StageView::FetchingSource(source_kind, target), CommandView::GetSource)
    }
}

/// Foreground deletion for a target without finalizers, background otherwise.
pub open spec fn propagation_for(finalizers: Option<Vec<String>>) -> Propagation {
    if finalizer_views(finalizers).len() > 0 {
        Propagation::Background
    } else {
        Propagation::Foreground
    }
}

/// The owner reference from a local target to its `ResourceSync`: not the controller,
/// but blocking the owner's deletion.
pub open spec fn owner_reference(name: Seq<char>, uid: Seq<char>) -> JsonView {
    JsonView::Object(
        obj_set(
            obj_set(
                obj_set(
                    obj_set(
                        obj_set(
                            obj_set(
                                Seq::empty(),
                                "apiVersion"@,
                                JsonView::String(RESOURCE_SYNC_API_VERSION@),
                            ),
                            "blockOwnerDeletion"@,
                            JsonView::Bool(true),
                        ),
                        "controller"@,
                        JsonView::Bool(false),
                    ),
                    "kind"@,
                    JsonView::String(RESOURCE_SYNC_KIND@),
                ),
                "name"@,
                JsonView::String(name),
            ),
            "uid"@,
            JsonView::String(uid),
        ),
    )
}

/// `metadata` with `reference` appended to its owner references (which are created
/// when missing), as it reads back through `ObjectMeta`.
pub open spec fn with_owner_reference(metadata: JsonView, reference: JsonView) -> JsonView {
    let entries = match metadata {
        JsonView::Object(e) => e,
        _ => Seq::empty(),
    };
    let refs = match index_key(metadata, "ownerReferences"@) {
        JsonView::Array(items) => items.push(reference),
        _ => seq![reference],
    };
    normalized_metadata(JsonView::Object(obj_set(entries, "ownerReferences"@, JsonView::Array(refs))))
}

/// The target built from `source`, before any owner reference: a clone without
/// mappings, otherwise what the mappings build.
pub open spec fn built_target(rs: ResourceSync, source: DynamicObjectView, target: NamespacedApiView) -> MappingStep {
    let name = rs.spec.target.resource_ref.name@;
    if rs.spec.mappings@.len() == 0 {
        MappingStep::Next(clone_spec(source, name, target.namespace, target.api_version, target.kind))
    } else {
        apply_mappings_spec(
            source,
            name,
            target.namespace,
            target.api_version,
            target.kind,
            mapping_views(rs.spec.mappings@),
        )
    }
}

/// The target built from `source`: a clone without mappings, otherwise what the
/// mappings build; a local target then gets an owner reference to the `ResourceSync`,
/// which needs a UID.
pub open spec fn target_for(rs: ResourceSync, source: DynamicObjectView, target: NamespacedApiView) -> MappingStep {
    match built_target(rs, source, target) {
        MappingStep::Next(t) => if rs.spec.target.cluster is Some {
            MappingStep::Next(t)
        } else {
            match rs.metadata.uid {
                None => MappingStep::Fail(ErrorView::UIDRequired),
                Some(uid) => MappingStep::Next(
                    DynamicObjectView {
                        metadata: with_owner_reference(
                            t.metadata,
                            owner_reference(text_or_empty(rs.metadata.name), uid@),
                        ),
                        ..t
                    },
                ),
            }
        },
        other => other,
    }
}

/// One step of the reconciliation of `rs`: the stage it moves to and the next command,
/// given the answer `event` in `stage`, at the time `now`. An answer that does not fit
/// the stage leaves the stage as it is and aborts.
pub open spec fn transition(rs: ResourceSync, stage: StageView, event: Event, now: Time) -> (
    StageView,
    CommandView,
) {
    let abort = (stage, CommandView::Abort);
    match stage {
        StageView::Start => match event {
            Event::Start => match rs.metadata.name {
                None => (StageView::Finished, CommandView::Done(Err(ErrorView::NameRequired))),
                Some(_) => match rs.metadata.namespace {
                    None => finish(rs, Err(ErrorView::NamespaceRequired)),
                    Some(ns) => (StageView::ResolvingTarget, CommandView::ResolveTargetApi(ns@)),
                },
            },
            _ => abort,
        },
        StageView::ResolvingTarget => match event {
            Event::ApiResolved(Err(e)) => api_failure(rs, e@),
            Event::ApiResolved(Ok(t)) => (
                StageView::ResolvingSource(t@),
                CommandView::ResolveSourceApi(text_or_empty(rs.metadata.namespace)),
            ),
            _ => abort,
        },
        StageView::ResolvingSource(target) => match event {
            Event::ApiResolved(Err(e)) => api_failure(rs, e@),
            Event::ApiResolved(Ok(s)) => after_apis(rs, s.ar.kind@, target),
            _ => abort,
        },
        StageView::StoppingWatches => match event {
            Event::WatchesStopped => (
                StageView::RemovingFinalizer,
                CommandView::PatchFinalizers(finalizers_without_ours(rs)),
            ),
            _ => abort,
        },
        StageView::RemovingFinalizer => match event {
            Event::FinalizersPatched(Ok(_)) => finish(rs, Ok(Action::AwaitChange)),
            Event::FinalizersPatched(Err(f)) => finish(rs, Err(kube_error(f))),
            _ => abort,
        },
        StageView::AddingFinalizer => match event {
            Event::FinalizersPatched(Ok(_)) => finish(
                rs,
                Ok(Action::Requeue { secs: 0, nanos: 500_000_000 }),
            ),
            Event::FinalizersPatched(Err(f)) => finish(rs, Err(kube_error(f))),
            _ => abort,
        },
        StageView::FetchingTarget => match event {
            Event::TargetFetched(Ok(t)) => if t.deletion_timestamp is Some {
                (StageView::StartingWatches, CommandView::StartWatches)
            } else {
                (
                    StageView::DeletingTarget,
                    CommandView::DeleteTarget(propagation_for(t.finalizers)),
                )
            },
            Event::TargetFetched(Err(f)) => if f.code == Some(404u16) {
                (StageView::StoppingWatches, CommandView::StopWatches)
            } else {
                finish(rs, Err(kube_error(f)))
            },
            _ => abort,
        },
        StageView::DeletingTarget => match event {
            Event::TargetDeleted(Ok(_)) => (StageView::StartingWatches, CommandView::StartWatches),
            Event::TargetDeleted(Err(f)) => finish(rs, Err(kube_error(f))),
            _ => abort,
        },
        StageView::StartingWatches => match event {
            Event::WatchesStarted => finish(rs, Ok(Action::AwaitChange)),
            _ => abort,
        },
        StageView::FetchingSource(source_kind, target) => match event {
            Event::SourceFetched(Err(f)) => finish(
                rs,
                Err(
                    ErrorView::ResourceNotFoundError(
                        rs.spec.source.resource_ref.name@,
                        source_kind,
                        f.code,
                        f.message@,
                    ),
                ),
            ),
            Event::SourceFetched(Ok(source)) => match target_for(rs, source@, target) {
                MappingStep::Next(t) => (
                    StageView::ApplyingTarget,
                    CommandView::ApplyTarget(t, RESOURCE_SYNC_GROUP@, true),
                ),
                MappingStep::Fail(e) => finish(rs, Err(e)),
                MappingStep::Panics => (StageView::Finished, CommandView::Abort),
            },
            _ => abort,
        },
        StageView::ApplyingTarget => match event {
            Event::TargetApplied(Ok(_)) => (StageView::StartingWatches, CommandView::StartWatches),
            Event::TargetApplied(Err(f)) => finish(rs, Err(kube_error(f))),
            _ => abort,
        },
        StageView::ReadingStatus(result) => match event {
            Event::StatusRead(Err(f)) => (StageView::Finished, CommandView::Done(Err(kube_error(f)))),
            Event::StatusRead(Ok(live)) => match status_after(rs, status_view(live), result, now) {
                Some(conditions) => (StageView::WritingStatus(result), CommandView::WriteStatus(conditions)),
                None => (StageView::Finished, CommandView::Done(result)),
            },
            _ => abort,
        },
        StageView::WritingStatus(result) => match event {
            Event::StatusWritten(Ok(_)) => (StageView::Finished, CommandView::Done(result)),
            Event::StatusWritten(Err(f)) => (StageView::Finished, CommandView::Done(Err(kube_error(f)))),
            _ => abort,
        },
        StageView::Finished => abort,
    }
}

fn finish_with(rs: &ResourceSync, result: Result<Action, Error>) -> (r: (Stage, Command))
    ensures
        (r.0@, r.1@) == finish(*rs, result_view(result)),
{
    if result.is_err() || !rs.has_been_deleted() {
        (Stage::ReadingStatus(result), Command::ReadStatus)
    } else {
        (Stage::Finished, Command::Done(result))
    }
}

fn on_api_failure(rs: &ResourceSync, e: Error) -> (r: (Stage, Command))
    ensures
        (r.0@, r.1@) == api_failure(*rs, e@),
{
    if rs.has_force_delete_option_enabled() && rs.has_been_deleted() {
        (Stage::StoppingWatches, Command::StopWatches)
    } else {
        finish_with(rs, Err(e))
    }
}

fn finalizers_without_our_own(rs: &ResourceSync) -> (r: Vec<String>)
    ensures
        strings_view(r@) == finalizers_without_ours(*rs),
{
    rs.finalizers_clone_or_empty().with_item_removed(&String::from_str(FINALIZER))
}

fn finalizers_with_our_own(rs: &ResourceSync) -> (r: Vec<String>)
    ensures
        strings_view(r@) == finalizers_with_ours(*rs),
{
    let v = rs.finalizers_clone_or_empty();
    let ghost before = v@;
    let ours = String::from_str(FINALIZER);
    let r = v.with_push(ours);
    proof {
        assert(strings_view(r@) =~= strings_view(before).push(ours@));
    }
    r
}

fn on_apis_resolved(rs: &ResourceSync, source: NamespacedApi, target: NamespacedApi) -> (r: (Stage, Command))
    ensures
        (r.0@, r.1@) == after_apis(*rs, source.ar.kind@, target@),
{
    if rs.has_been_deleted() {
        if !rs.has_target_finalizer() {
            finish_with(rs, Ok(Action::AwaitChange))
        } else if rs.has_disable_target_deletion_option_enabled() {
            (Stage::StoppingWatches, Command::StopWatches)
        } else {
            (Stage::FetchingTarget, Command::GetTarget)
        }
    } else if !rs.has_target_finalizer() {
        (Stage::AddingFinalizer, Command::PatchFinalizers(finalizers_with_our_own(rs)))
    } else {
        (Stage::FetchingSource(source.ar.kind, target), Command::GetSource)
    }
}

fn propagation_of(finalizers: &Option<Vec<String>>) -> (r: Propagation)
    ensures
        r == propagation_for(*finalizers),
{
    match finalizers {
        Some(f) => if f.len() > 0 {
            Propagation::Background
        } else {
            Propagation::Foreground
        },
        None => Propagation::Foreground,
    }
}

fn owner_reference_json(name: &str, uid: &str) -> (r: Json)
    ensures
        r@ == owner_reference(name@, uid@),
{
    let mut e: Vec<(String, Json)> = Vec::new();
    proof { assert(entries_view(e@) =~= Seq::empty()); }
    obj_insert(&mut e, String::from_str("apiVersion"), Json::String(String::from_str(RESOURCE_SYNC_API_VERSION)));
    obj_insert(&mut e, String::from_str("blockOwnerDeletion"), Json::Bool(true));
    obj_insert(&mut e, String::from_str("controller"), Json::Bool(false));
    obj_insert(&mut e, String::from_str("kind"), Json::String(String::from_str(RESOURCE_SYNC_KIND)));
    obj_insert(&mut e, String::from_str("name"), Json::String(String::from_str(name)));
    obj_insert(&mut e, String::from_str("uid"), Json::String(String::from_str(uid)));
    let r = Json::Object(e);
    proof { lemma_view_parts(r); }
    r
}

fn add_owner_reference(metadata: Json, reference: Json) -> (r: Json)
    ensures
        r@ == with_owner_reference(metadata@, reference@),
{
    let existing = get_key(&metadata, "ownerReferences");
    proof { lemma_view_parts(existing); }
    let refs = match existing {
        Json::Array(items) => {
            let ghost before = items@;
            let mut items = items;
            items.push(reference);
            proof {
                assert(crate::json::items_view(items@) =~= crate::json::items_view(before).push(
                    reference@,
                ));
            }
            items
        },
        _ => {
            let mut items: Vec<Json> = Vec::new();
            items.push(reference);
            proof {
                assert(crate::json::items_view(items@) =~= seq![reference@]);
            }
            items
        },
    };
    let refs = Json::Array(refs);
    proof { lemma_view_parts(refs); lemma_view_parts(metadata); }
    let mut entries = match metadata {
        Json::Object(e) => e,
        _ => {
            let e: Vec<(String, Json)> = Vec::new();
            proof { assert(entries_view(e@) =~= Seq::empty()); }
            e
        },
    };
    obj_insert(&mut entries, String::from_str("ownerReferences"), refs);
    let r = Json::Object(entries);
    proof { lemma_view_parts(r); }
    normalize_metadata(&r)
}

fn build_target(rs: &ResourceSync, source: &DynamicObject, target: &NamespacedApi) -> (r: Option<
    Result<DynamicObject, Error>,
>)
    ensures
        match target_for(*rs, source@, target@) {
            MappingStep::Next(t) => r matches Some(Ok(x)) && x@ == t,
            MappingStep::Fail(e) => r matches Some(Err(x)) && x@ == e,
            MappingStep::Panics => r is None,
        },
{
    let target_ref = &rs.spec.target.resource_ref;
    let namespace: Option<&str> = match &target.namespace {
        Some(n) => Some(n.as_str()),
        None => None,
    };
    assert(opt_str_view(namespace) == target@.namespace);
    let built = if rs.spec.mappings.len() == 0 {
        Some(clone_resource(source, target_ref, namespace, &target.ar))
    } else {
        try_apply_mappings(source, target_ref, namespace, &target.ar, rs)
    };
    match built {
        None => None,
        Some(Err(e)) => Some(Err(e)),
        Some(Ok(t)) => match &rs.spec.target.cluster {
            Some(_) => Some(Ok(t)),
            None => match &rs.metadata.uid {
                None => Some(Err(Error::UIDRequired)),
                Some(uid) => {
                    let name: &str = match &rs.metadata.name {
                        Some(n) => n.as_str(),
                        None => "",
                    };
                    proof {
                        reveal_strlit("");
                    }
                    assert(name@ == text_or_empty(rs.metadata.name));
                    let reference = owner_reference_json(name, uid.as_str());
                    let DynamicObject { types, metadata, data } = t;
                    let metadata = add_owner_reference(metadata, reference);
                    Some(Ok(DynamicObject { types, metadata, data }))
                },
            },
        },
    }
}

/// [`step`] at the time `now`.
pub fn step_at(rs: &ResourceSync, stage: Stage, event: Event, now: Time) -> (r: (Stage, Command))
    ensures
        (r.0@, r.1@) == transition(*rs, stage@, event, now),
{
    match stage {
        Stage::Start => match event {
            Event::Start => match &rs.metadata.name {
                None => (Stage::Finished, Command::Done(Err(Error::NameRequired))),
                Some(_) => match &rs.metadata.namespace {
                    None => finish_with(rs, Err(Error::NamespaceRequired)),
                    Some(ns) => (Stage::ResolvingTarget, Command::ResolveTargetApi(ns.clone())),
                },
            },
            _ => (Stage::Start, Command::Abort),
        },
        Stage::ResolvingTarget => match event {
            Event::ApiResolved(Err(e)) => on_api_failure(rs, e),
            Event::ApiResolved(Ok(t)) => {
                let ns = match &rs.metadata.namespace {
                    Some(n) => n.clone(),
                    None => String::new(),
                };
                (Stage::ResolvingSource(t), Command::ResolveSourceApi(ns))
            },
            _ => (Stage::ResolvingTarget, Command::Abort),
        },
        Stage::ResolvingSource(target) => match event {
            Event::ApiResolved(Err(e)) => on_api_failure(rs, e),
            Event::ApiResolved(Ok(s)) => on_apis_resolved(rs, s, target),
            _ => (Stage::ResolvingSource(target), Command::Abort),
        },
        Stage::StoppingWatches => match event {
            Event::WatchesStopped => (
                Stage::RemovingFinalizer,
                Command::PatchFinalizers(finalizers_without_our_own(rs)),
            ),
            _ => (Stage::StoppingWatches, Command::Abort),
        },
        Stage::RemovingFinalizer => match event {
            Event::FinalizersPatched(Ok(_)) => finish_with(rs, Ok(Action::AwaitChange)),
            Event::FinalizersPatched(Err(f)) => finish_with(rs, Err(Error::KubeError(f))),
            _ => (Stage::RemovingFinalizer, Command::Abort),
        },
        Stage::AddingFinalizer => match event {
            Event::FinalizersPatched(Ok(_)) => finish_with(rs, Ok(Action::requeue_millis(500))),
            Event::FinalizersPatched(Err(f)) => finish_with(rs, Err(Error::KubeError(f))),
            _ => (Stage::AddingFinalizer, Command::Abort),
        },
        Stage::FetchingTarget => match event {
            Event::TargetFetched(Ok(t)) => if t.deletion_timestamp.is_some() {
                (Stage::StartingWatches, Command::StartWatches)
            } else {
                (Stage::DeletingTarget, Command::DeleteTarget(propagation_of(&t.finalizers)))
            },
            Event::TargetFetched(Err(f)) => if f.code == Some(404u16) {
                (Stage::StoppingWatches, Command::StopWatches)
            } else {
                finish_with(rs, Err(Error::KubeError(f)))
            },
            _ => (Stage::FetchingTarget, Command::Abort),
        },
        Stage::DeletingTarget => match event {
            Event::TargetDeleted(Ok(_)) => (Stage::StartingWatches, Command::StartWatches),
            Event::TargetDeleted(Err(f)) => finish_with(rs, Err(Error::KubeError(f))),
            _ => (Stage::DeletingTarget, Command::Abort),
        },
        Stage::StartingWatches => match event {
            Event::WatchesStarted => finish_with(rs, Ok(Action::AwaitChange)),
            _ => (Stage::StartingWatches, Command::Abort),
        },
        Stage::FetchingSource(source_kind, target) => match event {
            Event::SourceFetched(Err(f)) => finish_with(
                rs,
                Err(
                    Error::ResourceNotFoundError(
                        rs.spec.source.resource_ref.name.clone(),
                        source_kind,
                        f,
                    ),
                ),
            ),
            Event::SourceFetched(Ok(source)) => match build_target(rs, &source, &target) {
                Some(Ok(t)) => (
                    Stage::ApplyingTarget,
                    Command::ApplyTarget(t, String::from_str(RESOURCE_SYNC_GROUP), true),
                ),
                Some(Err(e)) => finish_with(rs, Err(e)),
                None => (Stage::Finished, Command::Abort),
            },
            _ => (Stage::FetchingSource(source_kind, target), Command::Abort),
        },
        Stage::ApplyingTarget => match event {
            Event::TargetApplied(Ok(_)) => (Stage::StartingWatches, Command::StartWatches),
            Event::TargetApplied(Err(f)) => finish_with(rs, Err(Error::KubeError(f))),
            _ => (Stage::ApplyingTarget, Command::Abort),
        },
        Stage::ReadingStatus(result) => match event {
            Event::StatusRead(Err(f)) => (Stage::Finished, Command::Done(Err(Error::KubeError(f)))),
            Event::StatusRead(Ok(live)) => match reconcile_status_at(rs, &live, &result, now) {
                Some(status) => (Stage::WritingStatus(result), Command::WriteStatus(status)),
                None => (Stage::Finished, Command::Done(result)),
            },
            _ => (Stage::ReadingStatus(result), Command::Abort),
        },
        Stage::WritingStatus(result) => match event {
            Event::StatusWritten(Ok(_)) => (Stage::Finished, Command::Done(result)),
            Event::StatusWritten(Err(f)) => (Stage::Finished, Command::Done(Err(Error::KubeError(f)))),
            _ => (Stage::WritingStatus(result), Command::Abort),
        },
        Stage::Finished => (Stage::Finished, Command::Abort),
    }
}

/// One step of the reconciliation of `rs`: given the answer `event` to the last command
/// in `stage`, the stage that follows and the next command. A status written on the way
/// takes its transition time from the clock.
pub fn step(rs: &ResourceSync, stage: Stage, event: Event) -> (r: (Stage, Command))
    ensures
        exists|t: Time| (r.0@, r.1@) == transition(*rs, stage@, event, t),
{
    let t = now();
    step_at(rs, stage, event, t)
}

// ---------------------------------------------------------------- laws

/// The most answers a reconciliation still needs from `stage`.
pub open spec fn remaining_answers(stage: StageView) -> nat {
    match stage {
        StageView::Finished => 0,
        StageView::WritingStatus(_) => 1,
        StageView::ReadingStatus(_) => 2,
        StageView::RemovingFinalizer => 3,
        StageView::AddingFinalizer => 3,
        StageView::StartingWatches => 3,
        StageView::StoppingWatches => 4,
        StageView::ApplyingTarget => 4,
        StageView::DeletingTarget => 4,
        StageView::FetchingTarget => 5,
        StageView::FetchingSource(_, _) => 5,
        StageView::ResolvingSource(_) => 6,
        StageView::ResolvingTarget => 7,
        StageView::Start => 8,
    }
}

/// Every answer that fits the question brings a reconciliation strictly closer to its
/// end, so that it ends after at most eight answers; it ends exactly when it hands back
/// its result or aborts.
pub proof fn lemma_reconciliation_ends(rs: ResourceSync, stage: StageView, event: Event, now: Time)
    ensures
        ({
            let (next, command) = transition(rs, stage, event, now);
            &&& !(command is Abort) ==> remaining_answers(next) < remaining_answers(stage)
            &&& command is Done ==> next is Finished
            &&& next is Finished ==> (command is Done || command is Abort)
        }),
{
}

/// A reconciliation that fails reads the live status, then writes the
/// `ResourceSyncFailing` condition as `True`, with the error's text as its message and
/// the `ResourceSync`'s generation, and once written hands back the error. Only a
/// failure to read or write the status replaces the error.
pub proof fn lemma_failure_is_reported(
    rs: ResourceSync,
    e: ErrorView,
    live: Option<ResourceSyncStatus>,
    now: Time,
)
    ensures
        finish(rs, Err(e)) == (StageView::ReadingStatus(Err(e)), CommandView::ReadStatus),
        ({
            let (next, command) = transition(
                rs,
                StageView::ReadingStatus(Err(e)),
                Event::StatusRead(Ok(live)),
                now,
            );
            &&& next == StageView::WritingStatus(Err(e))
            &&& command matches CommandView::WriteStatus(Some(conditions)) && conditions.len() == 1
                && conditions[0].type_ == RESOURCE_SYNC_FAILING_CONDITION@ && conditions[0].status
                == "True"@ && conditions[0].reason == RESOURCE_SYNC_FAILING_CONDITION@
                && conditions[0].message == crate::error::error_message(e)
                && conditions[0].observed_generation == rs.metadata.generation
        }),
        transition(rs, StageView::WritingStatus(Err(e)), Event::StatusWritten(Ok(())), now) == (
            StageView::Finished,
            CommandView::Done(Err(e)),
        ),
{
}

/// A successful reconciliation of a `ResourceSync` that is not being deleted resets the
/// condition to `False`, so that no earlier failure stays latched; that of a deleted
/// `ResourceSync` neither reads nor writes its status.
pub proof fn lemma_success_resets_the_condition(
    rs: ResourceSync,
    a: Action,
    live: Option<ResourceSyncStatus>,
    now: Time,
)
    ensures
        !is_deleted(rs) ==> finish(rs, Ok(a)) == (StageView::ReadingStatus(Ok(a)), CommandView::ReadStatus),
        !is_deleted(rs) ==> ({
            let (next, command) = transition(
                rs,
                StageView::ReadingStatus(Ok(a)),
                Event::StatusRead(Ok(live)),
                now,
            );
            &&& next == StageView::WritingStatus(Ok(a))
            &&& command matches CommandView::WriteStatus(Some(conditions)) && conditions.len() == 1
                && conditions[0].type_ == RESOURCE_SYNC_FAILING_CONDITION@ && conditions[0].status
                == "False"@ && conditions[0].reason == RESOURCE_SYNC_SUCCEEDED_REASON@
                && conditions[0].message == "Sync succeeded"@
        }),
        is_deleted(rs) ==> finish(rs, Ok(a)) == (StageView::Finished, CommandView::Done(Ok(a))),
{
}

/// The transition time of the failing condition (the first condition of its type) is
/// carried over while its value stays the same, and is the current time when the value
/// flips.
pub proof fn lemma_transition_time_follows_flips(
    conditions: Seq<ConditionView>,
    i: int,
    new_status: Seq<char>,
    now: Time,
)
    requires
        0 <= i < conditions.len(),
        conditions[i].type_ == RESOURCE_SYNC_FAILING_CONDITION@,
        forall|j: int| 0 <= j < i ==> conditions[j].type_ != RESOURCE_SYNC_FAILING_CONDITION@,
    ensures
        conditions[i].status == new_status ==> transition_time(
            Some(Some(conditions)),
            new_status,
            now,
        ) == conditions[i].last_transition_time,
        conditions[i].status != new_status ==> transition_time(
            Some(Some(conditions)),
            new_status,
            now,
        ) == now,
{
    let p = |k: int| conditions[k].type_ == RESOURCE_SYNC_FAILING_CONDITION@;
    crate::json::lemma_first_from_is(0, conditions.len() as int, p, i);
}

/// The status written after a reconciliation holds one `ResourceSyncFailing` condition:
/// `True` on failure and `False` on success (for a `ResourceSync` not being deleted).
/// Its transition time is that of the live failing condition (the first condition of
/// that type) when that condition already has the written value, and the current time
/// otherwise: a flip from `True` to `False`, or back, always takes the current time.
pub proof fn lemma_written_condition_times(
    resource_sync: ResourceSync,
    conditions: Seq<ConditionView>,
    i: int,
    result: Result<Action, ErrorView>,
    now: Time,
)
    requires
        0 <= i < conditions.len(),
        conditions[i].type_ == RESOURCE_SYNC_FAILING_CONDITION@,
        forall|j: int| 0 <= j < i ==> conditions[j].type_ != RESOURCE_SYNC_FAILING_CONDITION@,
        result is Err || resource_sync.metadata.deletion_timestamp is None,
    ensures
        ({
            let written = if result is Err {
                "True"@
            } else {
                "False"@
            };
            status_after(resource_sync, Some(Some(conditions)), result, now) matches Some(Some(c)) && c.len()
                == 1 && c[0].type_ == RESOURCE_SYNC_FAILING_CONDITION@ && c[0].status == written
                && c[0].last_transition_time == if conditions[i].status == written {
                conditions[i].last_transition_time
            } else {
                now
            }
        }),
{
    let p = |k: int| conditions[k].type_ == RESOURCE_SYNC_FAILING_CONDITION@;
    crate::json::lemma_first_from_is(0, conditions.len() as int, p, i);
}

/// Without a failing condition in the live status, the condition's transition time is
/// the current time.
pub proof fn lemma_new_condition_starts_now(
    status: Option<Option<Seq<ConditionView>>>,
    new_status: Seq<char>,
    now: Time,
)
    requires
        status matches Some(Some(c)) ==> forall|j: int|
            0 <= j < c.len() ==> c[j].type_ != RESOURCE_SYNC_FAILING_CONDITION@,
    ensures
        transition_time(status, new_status, now) == now,
{
    if let Some(Some(c)) = status {
        let p = |k: int| c[k].type_ == RESOURCE_SYNC_FAILING_CONDITION@;
        crate::json::lemma_first_from_is(0, c.len() as int, p, c.len() as int);
    }
}

/// The finalizers patched in: adding keeps every existing finalizer and appends the
/// controller's; removing keeps every other finalizer in its order and leaves no copy
/// of the controller's; and removing after adding gives back what removing gives.
pub proof fn lemma_finalizer_patches(rs: ResourceSync)
    ensures
        finalizers_with_ours(rs).drop_last() == finalizer_views(rs.metadata.finalizers),
        finalizers_with_ours(rs).last() == FINALIZER@,
        !finalizers_without_ours(rs).contains(FINALIZER@),
        forall|f: Seq<char>|
            f != FINALIZER@ ==> (#[trigger] finalizers_without_ours(rs).contains(f)
                <==> finalizer_views(rs.metadata.finalizers).contains(f)),
        without_item(finalizers_with_ours(rs), FINALIZER@) == finalizers_without_ours(rs),
{
    crate::util::lemma_without_item(finalizer_views(rs.metadata.finalizers), FINALIZER@);
    crate::util::lemma_without_pushed_item(finalizer_views(rs.metadata.finalizers), FINALIZER@);
    assert(finalizers_with_ours(rs).drop_last() =~= finalizer_views(rs.metadata.finalizers));
}

/// A failure to resolve an API lets go of a `ResourceSync` (its watches stop, then its
/// finalizer goes) only when it is being deleted with the force-delete option;
/// otherwise the failure is reported.
pub proof fn lemma_force_delete_only_while_deleting(rs: ResourceSync, e: ErrorView)
    ensures
        option_enabled(rs, FORCE_DELETE_ANNOTATION@) && is_deleted(rs) ==> api_failure(rs, e) == (
            StageView::StoppingWatches,
            CommandView::StopWatches,
        ),
        !(option_enabled(rs, FORCE_DELETE_ANNOTATION@) && is_deleted(rs)) ==> api_failure(rs, e) == (
            StageView::ReadingStatus(Err(e)),
            CommandView::ReadStatus,
        ),
{
}

/// A `ResourceSync` being deleted whose force-delete annotation reads `true`, wherever
/// it stands among annotations with distinct keys, lets go after a failure to resolve
/// the target's API: its watches stop (then its finalizer goes); the failure is not
/// reported.
pub proof fn lemma_force_delete_annotation_anywhere(
    rs: ResourceSync,
    a: Vec<(String, String)>,
    j: int,
    f: KubeFailure,
    now: Time,
)
    requires
        rs.metadata.annotations == Some(a),
        0 <= j < a@.len(),
        a@[j].0@ == FORCE_DELETE_ANNOTATION@,
        a@[j].1@ == "true"@,
        forall|x: int, y: int| 0 <= x < y < a@.len() ==> #[trigger] a@[x].0@ != #[trigger] a@[y].0@,
        rs.metadata.deletion_timestamp is Some,
    ensures
        option_enabled(rs, FORCE_DELETE_ANNOTATION@),
        transition(
            rs,
            StageView::ResolvingTarget,
            Event::ApiResolved(Err(Error::KubeError(f))),
            now,
        ) == (StageView::StoppingWatches, CommandView::StopWatches),
{
    crate::resources::lemma_annotation_found_anywhere(a, j, FORCE_DELETE_ANNOTATION@);
}

/// With target deletion disabled, deleting a `ResourceSync` never reads nor deletes its
/// target: the watches stop, then the finalizer goes.
pub proof fn lemma_disabled_target_deletion_keeps_target(
    rs: ResourceSync,
    source_kind: Seq<char>,
    target: NamespacedApiView,
    now: Time,
)
    requires
        is_deleted(rs),
        has_finalizer(rs),
        option_enabled(rs, DISABLE_TARGET_DELETION_ANNOTATION@),
    ensures
        after_apis(rs, source_kind, target) == (StageView::StoppingWatches, CommandView::StopWatches),
        transition(rs, StageView::StoppingWatches, Event::WatchesStopped, now) == (
            StageView::RemovingFinalizer,
            CommandView::PatchFinalizers(finalizers_without_ours(rs)),
        ),
{
}

/// The owner references of `metadata`, none when it has none.
pub open spec fn owner_references_of(metadata: JsonView) -> Seq<JsonView> {
    match index_key(metadata, "ownerReferences"@) {
        JsonView::Array(items) => items,
        _ => Seq::empty(),
    }
}

/// Adding the owner reference appends it to the owner references of the metadata (all
/// of them as they read back through `OwnerReference`), and leaves every other member
/// as the metadata reads back through `ObjectMeta`.
pub proof fn lemma_owner_reference_appended(metadata: JsonView, reference: JsonView)
    ensures
        index_key(with_owner_reference(metadata, reference), "ownerReferences"@) == JsonView::Array(
            normalized_entries(owner_references_of(metadata).push(reference), owner_reference_fields(), false),
        ),
        index_key(with_owner_reference(metadata, reference), "ownerReferences"@) matches JsonView::Array(
            refs,
        ) && refs.len() > 0 && refs.last() == JsonView::Object(
            entry_fields(reference, owner_reference_fields(), false),
        ),
        metadata is Object ==> forall|k: Seq<char>|
            k != "ownerReferences"@ ==> #[trigger] index_key(with_owner_reference(metadata, reference), k)
                == index_key(normalized_metadata(metadata), k),
{
    let entries = match metadata {
        JsonView::Object(e) => e,
        _ => Seq::empty(),
    };
    let refs = match index_key(metadata, "ownerReferences"@) {
        JsonView::Array(items) => items.push(reference),
        _ => seq![reference],
    };
    assert(refs =~= owner_references_of(metadata).push(reference));
    let x = JsonView::Object(obj_set(entries, "ownerReferences"@, JsonView::Array(refs)));
    crate::json::lemma_obj_set_get(entries, "ownerReferences"@, JsonView::Array(refs));
    lemma_object_meta_fields_distinct();
    let fields = object_meta_fields();
    lemma_normalized_get(x, fields, "ownerReferences"@);
    assert(fields[11] == "ownerReferences"@);
    reveal_strlit("ownerReferences");
    reveal_strlit("annotations");
    reveal_strlit("labels");
    reveal_strlit("creationTimestamp");
    reveal_strlit("deletionTimestamp");
    assert("ownerReferences"@.len() == 15 && "annotations"@.len() == 11 && "labels"@.len() == 6
        && "creationTimestamp"@.len() == 17 && "deletionTimestamp"@.len() == 17);
    assert(normalized_member("ownerReferences"@, JsonView::Array(refs)) == JsonView::Array(
        normalized_entries(refs, owner_reference_fields(), false),
    ));
    if metadata is Object {
        assert forall|k: Seq<char>| k != "ownerReferences"@ implies #[trigger] index_key(
            with_owner_reference(metadata, reference),
            k,
        ) == index_key(normalized_metadata(metadata), k) by {
            lemma_normalized_get(x, fields, k);
            lemma_normalized_get(metadata, fields, k);
        }
    }
}

proof fn lemma_obj_set_absent(e: Seq<(Seq<char>, JsonView)>, k: Seq<char>, v: JsonView)
    requires
        forall|i: int| 0 <= i < e.len() ==> #[trigger] e[i].0 != k,
    ensures
        obj_set(e, k, v) == e.push((k, v)),
{
    crate::json::lemma_first_from_is(0, e.len() as int, crate::json::key_at(e, k), e.len() as int);
}

/// An object whose keys are `fields`, in that order, with no null value, reads back as
/// itself.
proof fn lemma_entry_fields_of_exact(e: Seq<(Seq<char>, JsonView)>, fields: Seq<Seq<char>>, n: int)
    requires
        e.len() == fields.len(),
        0 <= n <= fields.len(),
        forall|i: int| 0 <= i < e.len() ==> #[trigger] e[i].0 == fields[i],
        forall|i: int, j: int| 0 <= i < j < fields.len() ==> fields[i] != fields[j],
        forall|i: int| 0 <= i < e.len() ==> #[trigger] e[i].1 != JsonView::Null,
    ensures
        entry_fields(JsonView::Object(e), fields.take(n), false) == e.take(n),
    decreases n,
{
    if n > 0 {
        lemma_entry_fields_of_exact(e, fields, n - 1);
        let f = fields[n - 1];
        assert(fields.take(n).drop_last() =~= fields.take(n - 1));
        assert(fields.take(n).last() == f);
        assert forall|k: int| 0 <= k < n - 1 implies !#[trigger] crate::json::key_at(e, f)(k) by {
            assert(e[k].0 == fields[k]);
        }
        crate::json::lemma_first_from_is(0, e.len() as int, crate::json::key_at(e, f), n - 1);
        assert(index_key(JsonView::Object(e), f) == e[n - 1].1);
        assert(e.take(n) =~= e.take(n - 1).push(e[n - 1]));
    } else {
        assert(e.take(0) =~= Seq::<(Seq<char>, JsonView)>::empty());
    }
}

/// The controller's owner reference is already in the form in which `OwnerReference`
/// writes it.
pub proof fn lemma_owner_reference_reads_back(name: Seq<char>, uid: Seq<char>)
    ensures
        JsonView::Object(entry_fields(owner_reference(name, uid), owner_reference_fields(), false))
            == owner_reference(name, uid),
{
    reveal_strlit("apiVersion");
    reveal_strlit("blockOwnerDeletion");
    reveal_strlit("controller");
    reveal_strlit("kind");
    reveal_strlit("name");
    reveal_strlit("uid");
    let f = owner_reference_fields();
    assert(f[0].len() == 10 && f[1].len() == 18 && f[2].len() == 10 && f[3].len() == 4
        && f[4].len() == 4 && f[5].len() == 3);
    assert(f[0][0] != f[2][0]);
    assert(f[3][0] != f[4][0]);
    let v0 = JsonView::String(RESOURCE_SYNC_API_VERSION@);
    let v1 = JsonView::Bool(true);
    let v2 = JsonView::Bool(false);
    let v3 = JsonView::String(RESOURCE_SYNC_KIND@);
    let v4 = JsonView::String(name);
    let v5 = JsonView::String(uid);
    let e0 = Seq::<(Seq<char>, JsonView)>::empty();
    lemma_obj_set_absent(e0, f[0], v0);
    let e1 = e0.push((f[0], v0));
    lemma_obj_set_absent(e1, f[1], v1);
    let e2 = e1.push((f[1], v1));
    assert forall|i: int| 0 <= i < e2.len() implies #[trigger] e2[i].0 != f[2] by {
        if i == 0 {
            assert(e2[0].0 == f[0]);
        } else {
            assert(e2[1].0 == f[1]);
        }
    }
    lemma_obj_set_absent(e2, f[2], v2);
    let e3 = e2.push((f[2], v2));
    assert forall|i: int| 0 <= i < e3.len() implies #[trigger] e3[i].0 != f[3] by {
        assert(e3[i].0 == f[i]);
    }
    lemma_obj_set_absent(e3, f[3], v3);
    let e4 = e3.push((f[3], v3));
    assert forall|i: int| 0 <= i < e4.len() implies #[trigger] e4[i].0 != f[4] by {
        assert(e4[i].0 == f[i]);
    }
    lemma_obj_set_absent(e4, f[4], v4);
    let e5 = e4.push((f[4], v4));
    assert forall|i: int| 0 <= i < e5.len() implies #[trigger] e5[i].0 != f[5] by {
        assert(e5[i].0 == f[i]);
    }
    lemma_obj_set_absent(e5, f[5], v5);
    let e6 = e5.push((f[5], v5));
    assert(owner_reference(name, uid) == JsonView::Object(e6));
    assert forall|i: int, j: int| 0 <= i < j < f.len() implies f[i] != f[j] by {
        if i == 0 && j == 2 {
            assert(f[i][0] != f[j][0]);
        } else if i == 3 && j == 4 {
            assert(f[i][0] != f[j][0]);
        } else {
            assert(f[i].len() != f[j].len());
        }
    }
    assert forall|i: int| 0 <= i < e6.len() implies #[trigger] e6[i].0 == f[i] by {}
    lemma_entry_fields_of_exact(e6, f, 6);
    assert(f.take(6) =~= f);
    assert(e6.take(6) =~= e6);
}

/// A target in the `ResourceSync`'s own cluster is applied with an owner reference to
/// the `ResourceSync` as the last of its owner references, which needs the
/// `ResourceSync`'s UID; a target in another cluster is applied as built.
pub proof fn lemma_local_targets_are_owned(
    rs: ResourceSync,
    source: DynamicObjectView,
    target: NamespacedApiView,
)
    ensures
        rs.spec.target.cluster is None && rs.metadata.uid is Some ==> (target_for(rs, source, target) matches MappingStep::Next(t)
            ==> index_key(t.metadata, "ownerReferences"@) matches JsonView::Array(refs) && refs.len() > 0
            && refs.last() == owner_reference(
            text_or_empty(rs.metadata.name),
            rs.metadata.uid->0@,
        )),
        rs.spec.target.cluster is None && rs.metadata.uid is None ==> !(target_for(rs, source, target) is Next),
{
    let name = rs.spec.target.resource_ref.name@;
    let built = if rs.spec.mappings@.len() == 0 {
        MappingStep::Next(clone_spec(source, name, target.namespace, target.api_version, target.kind))
    } else {
        apply_mappings_spec(
            source,
            name,
            target.namespace,
            target.api_version,
            target.kind,
            mapping_views(rs.spec.mappings@),
        )
    };
    if let MappingStep::Next(b) = built {
        if let Some(uid) = rs.metadata.uid {
            lemma_owner_reference_reads_back(text_or_empty(rs.metadata.name), uid@);
            lemma_owner_reference_appended(
                b.metadata,
                owner_reference(text_or_empty(rs.metadata.name), uid@),
            );
        }
    }
}

/// Once the source is read, what is applied is the target built from it (a clone, or
/// what the mappings build), as the controller's field manager with conflicts forced:
/// unchanged for a remote target, with the owner reference appended for a local one.
/// When building fails, nothing is applied and the failure is the result.
pub proof fn lemma_applied_target_is_built(
    rs: ResourceSync,
    source: DynamicObject,
    source_kind: Seq<char>,
    target: NamespacedApiView,
    now: Time,
)
    ensures
        ({
            let (next, command) = transition(
                rs,
                StageView::FetchingSource(source_kind, target),
                Event::SourceFetched(Ok(source)),
                now,
            );
            match built_target(rs, source@, target) {
                MappingStep::Next(b) => {
                    &&& rs.spec.target.cluster is Some ==> command == CommandView::ApplyTarget(
                        b,
                        RESOURCE_SYNC_GROUP@,
                        true,
                    )
                    &&& rs.spec.target.cluster is None && rs.metadata.uid is Some ==> command
                        == CommandView::ApplyTarget(
                        DynamicObjectView {
                            metadata: with_owner_reference(
                                b.metadata,
                                owner_reference(text_or_empty(rs.metadata.name), rs.metadata.uid->0@),
                            ),
                            ..b
                        },
                        RESOURCE_SYNC_GROUP@,
                        true,
                    )
                },
                MappingStep::Fail(e) => (next, command) == finish(rs, Err(e)),
                MappingStep::Panics => command is Abort,
            }
        }),
{
}

} // verus!
