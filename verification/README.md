# Sinker

Sinker is a Kubernetes controller that keeps a target object in sync with a source
object, possibly across clusters, as described by `ResourceSync` custom resources.

This crate is written in Verus. `src/` is the verified library:

- `json.rs`: the JSON model, its compact text form, object members and dotted paths.
- `mapping.rs`: cloning a source object and applying field mappings to build a target.
- `controller.rs`: one reconciliation of a `ResourceSync` as a state machine that says
  which request to make next, and the `ResourceSyncFailing` status condition.
- `resource_extensions.rs`: finalizers, watcher keys, and the resolution of the API of
  a referenced object (kubeconfig secrets of remote clusters, and their decoding and
  parsing, included).
- `remote_watcher.rs`, `remote_watcher_manager.rs`: the watcher of one object as a state
  machine, and the registry of running watchers.
- `filters.rs`, `metrics.rs`, `error.rs`, `objects.rs`, `resources.rs`, `text.rs`,
  `util.rs`: event filters, result labels, errors and the plain models of the API values.

The laws are public proof functions, most of them at the end of their module. `app/` runs the controller: it makes the
requests that the state machines ask for, converts between `kube` values and the
library's models, and carries the custom resource definitions.
