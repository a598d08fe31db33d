//! Event filters: generation changes of `ResourceSync`s, and who last wrote an object.
use vstd::prelude::*;

use crate::json::first_from;
use crate::objects::{ManagedFieldsEntry, ObjectMeta};
use crate::resource_extensions::{ObjectRef, ObjectRefView};
use crate::resources::{opt_view, ResourceSync};
use crate::text::str_eq;

verus! {

/// Remembers the last generation seen of each `ResourceSync`, by name and namespace,
/// for the lifetime of the watch.
pub struct GenerationFilter {
    generations: Vec<(ObjectRef, i64)>,
}

/// The name and namespace under which a `ResourceSync`'s generation is remembered.
pub open spec fn generation_key(resource: ResourceSync) -> ObjectRefView {
    ObjectRefView { name: resource.metadata.name->0@, namespace: opt_view(resource.metadata.namespace) }
}

/// What one look at `resource` does to the filter: `passes` says whether it goes
/// through, and `after` is the filter once it has seen `resource`.
pub open spec fn generation_step(
    before: GenerationFilter,
    after: GenerationFilter,
    resource: ResourceSync,
    passes: bool,
) -> bool {
    match resource.metadata.generation {
        None => passes && forall|key: ObjectRefView| after.recorded(key) == before.recorded(key),
        Some(g) => {
            let key = generation_key(resource);
            &&& passes == (before.recorded(key) != Some(g))
            &&& after.recorded(key) == Some(g)
            &&& forall|other: ObjectRefView| other != key ==> after.recorded(other) == before.recorded(other)
        },
    }
}

/// A generation passes once: when the same `ResourceSync` comes again with the same
/// generation, after another `ResourceSync` or an object without a generation, it is
/// filtered out; an object without a generation always passes and leaves the history as
/// it was.
pub proof fn lemma_generation_passes_once(
    f0: GenerationFilter,
    f1: GenerationFilter,
    f2: GenerationFilter,
    f3: GenerationFilter,
    a: ResourceSync,
    b: ResourceSync,
    r1: bool,
    r2: bool,
    r3: bool,
)
    requires
        generation_step(f0, f1, a, r1),
        generation_step(f1, f2, b, r2),
        generation_step(f2, f3, a, r3),
        a.metadata.generation is Some,
        b.metadata.generation is None || generation_key(b) != generation_key(a),
    ensures
        !r3,
        b.metadata.generation is None ==> r2,
{
}

/// A new generation of a `ResourceSync` always passes, whatever was seen before.
pub proof fn lemma_new_generation_passes(
    f0: GenerationFilter,
    f1: GenerationFilter,
    f2: GenerationFilter,
    a: ResourceSync,
    a2: ResourceSync,
    r1: bool,
    r2: bool,
)
    requires
        generation_step(f0, f1, a, r1),
        generation_step(f1, f2, a2, r2),
        a.metadata.generation is Some,
        a2.metadata.generation is Some,
        generation_key(a2) == generation_key(a),
        a2.metadata.generation != a.metadata.generation,
    ensures
        r2,
{
}

/// The generation recorded for `key` after the filter has seen `resources`, from what
/// it had recorded before: the generation of the last of them with that name and
/// namespace and a generation; objects without a generation change nothing.
pub open spec fn history(before: Option<i64>, key: ObjectRefView, resources: Seq<ResourceSync>) -> Option<
    i64,
>
    decreases resources.len(),
{
    if resources.len() == 0 {
        before
    } else {
        let r = resources.last();
        match r.metadata.generation {
            Some(g) => if generation_key(r) == key {
                Some(g)
            } else {
                history(before, key, resources.drop_last())
            },
            None => history(before, key, resources.drop_last()),
        }
    }
}

proof fn lemma_history_follows(
    filters: Seq<GenerationFilter>,
    resources: Seq<ResourceSync>,
    passes: Seq<bool>,
    k: int,
)
    requires
        filters.len() == resources.len() + 1,
        passes.len() == resources.len(),
        forall|key: ObjectRefView| #[trigger] filters[0].recorded(key) is None,
        forall|i: int|
            0 <= i < resources.len() ==> #[trigger] generation_step(
                filters[i],
                filters[i + 1],
                resources[i],
                passes[i],
            ),
        0 <= k <= resources.len(),
    ensures
        forall|key: ObjectRefView| #[trigger] filters[k].recorded(key) == history(
            None,
            key,
            resources.take(k),
        ),
    decreases k,
{
    if k > 0 {
        lemma_history_follows(filters, resources, passes, k - 1);
        assert(resources.take(k).drop_last() =~= resources.take(k - 1));
        assert(resources.take(k).last() == resources[k - 1]);
        let i = k - 1;
        assert(generation_step(filters[i], filters[i + 1], resources[i], passes[i]));
        assert(i + 1 == k);
        assert forall|key: ObjectRefView| #[trigger] filters[k].recorded(key) == history(
            None,
            key,
            resources.take(k),
        ) by {
            assert(filters[k - 1].recorded(key) == history(None, key, resources.take(k - 1)));
        }
    } else {
        assert forall|key: ObjectRefView| #[trigger] filters[k].recorded(key) == history(
            None,
            key,
            resources.take(k),
        ) by {
            assert(resources.take(0).len() == 0);
        }
    }
}

/// Over any sequence of calls on a new filter, a `ResourceSync` passes exactly when it
/// has no generation, or when no earlier one of the same name and namespace had a
/// generation, or when the latest such generation differs from its own; objects
/// without a generation leave the history as it was, and nothing but the name,
/// namespace and generation (not the UID, resource version, annotations or status)
/// decides.
pub proof fn lemma_generation_history(
    filters: Seq<GenerationFilter>,
    resources: Seq<ResourceSync>,
    passes: Seq<bool>,
)
    requires
        filters.len() == resources.len() + 1,
        passes.len() == resources.len(),
        forall|key: ObjectRefView| #[trigger] filters[0].recorded(key) is None,
        forall|i: int|
            0 <= i < resources.len() ==> #[trigger] generation_step(
                filters[i],
                filters[i + 1],
                resources[i],
                passes[i],
            ),
    ensures
        forall|k: int|
            0 <= k < resources.len() ==> #[trigger] passes[k] == (resources[k].metadata.generation is None
                || history(None, generation_key(resources[k]), resources.take(k))
                != resources[k].metadata.generation),
        forall|key: ObjectRefView| #[trigger] filters.last().recorded(key) == history(None, key, resources),
{
    assert forall|k: int| 0 <= k < resources.len() implies #[trigger] passes[k] == (
    resources[k].metadata.generation is None || history(None, generation_key(resources[k]), resources.take(k))
        != resources[k].metadata.generation) by {
        lemma_history_follows(filters, resources, passes, k);
        assert(generation_step(filters[k], filters[k + 1], resources[k], passes[k]));
        assert(filters[k].recorded(generation_key(resources[k])) == history(
            None,
            generation_key(resources[k]),
            resources.take(k),
        ));
    }
    lemma_history_follows(filters, resources, passes, resources.len() as int);
    assert(resources.take(resources.len() as int) =~= resources);
}

impl GenerationFilter {
    /// The entries, by reference view.
    pub closed spec fn entries(&self) -> Seq<(ObjectRefView, i64)> {
        Seq::new(self.generations@.len(), |i: int| (self.generations@[i].0@, self.generations@[i].1))
    }

    /// The generation last recorded for `key`.
    pub open spec fn recorded(&self, key: ObjectRefView) -> Option<i64> {
        let e = self.entries();
        let p = first_from(0, e.len() as int, |k: int| e[k].0 == key);
        if p < e.len() {
            Some(e[p].1)
        } else {
            None
        }
    }

    /// A filter that has seen nothing.
    pub fn new() -> (r: GenerationFilter)
        ensures
            forall|key: ObjectRefView| r.recorded(key) is None,
    {
        let r = GenerationFilter { generations: Vec::new() };
        assert forall|key: ObjectRefView| r.recorded(key) is None by {
            let e = r.entries();
            crate::json::lemma_first_from(0, e.len() as int, |k: int| e[k].0 == key);
        }
        r
    }

    fn position(&self, key: &ObjectRef) -> (r: usize)
        ensures
            r as int == first_from(0, self.entries().len() as int, |k: int| self.entries()[k].0 == key@),
    {
        let ghost e = self.entries();
        let ghost p = |k: int| e[k].0 == key@;
        let mut i: usize = 0;
        while i < self.generations.len()
            invariant
                e == self.entries(),
                p == (|k: int| e[k].0 == key@),
                i <= self.generations.len(),
                forall|k: int| 0 <= k < i ==> !#[trigger] p(k),
            decreases self.generations.len() - i,
        {
            if self.generations[i].0.same_as(key) {
                proof { crate::json::lemma_first_from_is(0, e.len() as int, p, i as int); }
                return i;
            }
            i = i + 1;
        }
        proof { crate::json::lemma_first_from_is(0, e.len() as int, p, e.len() as int); }
        i
    }

    /// Whether `resource` should be processed: always when it has no generation;
    /// otherwise when its generation differs from the one recorded for its name and
    /// namespace, which it then replaces. The resource must have a name when it has a
    /// generation.
    pub fn changed(&mut self, resource: &ResourceSync) -> (r: bool)
        requires
            resource.metadata.generation is Some ==> resource.metadata.name is Some,
        ensures
            generation_step(*old(self), *final(self), *resource, r),
    {
        match resource.metadata.generation {
            None => true,
            Some(g) => {
                let key = resource.object_ref();
                let ghost e = self.entries();
                let ghost fk = |k: int| e[k].0 == key@;
                let p = self.position(&key);
                proof { crate::json::lemma_first_from(0, e.len() as int, fk); }
                if p < self.generations.len() {
                    let previous = self.generations[p].1;
                    let _ = self.generations.remove(p);
                    self.generations.insert(p, (key, g));
                    proof {
                        let e2 = self.entries();
                        assert(e2 =~= e.update(p as int, (key@, g)));
                        assert forall|other: ObjectRefView| #[trigger] self.recorded(other)
                            == (if other == key@ { Some(g) } else { old(self).recorded(other) }) by {
                            let f = |k: int| e[k].0 == other;
                            let f2 = |k: int| e2[k].0 == other;
                            crate::json::lemma_first_from(0, e.len() as int, f);
                            let q = first_from(0, e.len() as int, f);
                            if other == key@ {
                                assert forall|k: int| 0 <= k < p implies !#[trigger] f2(k) by {
                                    assert(!fk(k));
                                    assert(e2[k] == e[k]);
                                }
                                crate::json::lemma_first_from_is(0, e2.len() as int, f2, p as int);
                            } else {
                                assert forall|k: int| 0 <= k < q implies !#[trigger] f2(k) by {
                                    assert(!f(k));
                                }
                                crate::json::lemma_first_from_is(0, e2.len() as int, f2, q);
                            }
                        }
                    }
                    previous != g
                } else {
                    self.generations.push((key, g));
                    proof {
                        let e2 = self.entries();
                        assert(e2 =~= e.push((key@, g)));
                        assert forall|other: ObjectRefView| #[trigger] self.recorded(other)
                            == (if other == key@ { Some(g) } else { old(self).recorded(other) }) by {
                            let f = |k: int| e[k].0 == other;
                            let f2 = |k: int| e2[k].0 == other;
                            crate::json::lemma_first_from(0, e.len() as int, f);
                            let q = first_from(0, e.len() as int, f);
                            if other == key@ {
                                assert forall|k: int| 0 <= k < e.len() implies !#[trigger] f2(k) by {
                                    assert(!fk(k));
                                    assert(e2[k] == e[k]);
                                }
                                crate::json::lemma_first_from_is(0, e2.len() as int, f2, e.len() as int);
                            } else if q < e.len() {
                                assert forall|k: int| 0 <= k < q implies !#[trigger] f2(k) by {
                                    assert(!f(k));
                                }
                                crate::json::lemma_first_from_is(0, e2.len() as int, f2, q);
                            } else {
                                assert forall|k: int| 0 <= k < e2.len() implies !#[trigger] f2(k) by {
                                    if k < e.len() {
                                        assert(!f(k));
                                    }
                                }
                                crate::json::lemma_first_from_is(0, e2.len() as int, f2, e2.len() as int);
                            }
                        }
                    }
                    true
                }
            },
        }
    }
}

// ---------------------------------------------------------------- last writer

/// Index of the most recent entry (the last one among equally recent entries, as
/// `Iterator::max_by_key` picks). All entries must have a time.
pub open spec fn latest_index(fields: Seq<ManagedFieldsEntry>) -> int
    decreases fields.len(),
{
    if fields.len() <= 1 {
        0
    } else {
        let p = latest_index(fields.drop_last());
        if fields.last().time->0.nanosecond >= fields[p].time->0.nanosecond {
            fields.len() - 1
        } else {
            p
        }
    }
}

/// Whether the most recent managed-fields entry was written by `manager`; `None`
/// when there are no entries or some entry has no time.
pub open spec fn last_modified_by(fields: Option<Vec<ManagedFieldsEntry>>, manager: Seq<char>) -> Option<bool> {
    match fields {
        None => None,
        Some(f) => if exists|i: int| 0 <= i < f@.len() && f@[i].time is None {
            None
        } else if f@.len() == 0 {
            None
        } else {
            Some(opt_view(f@[latest_index(f@)].manager) == Some(manager))
        },
    }
}

proof fn lemma_latest_index(fields: Seq<ManagedFieldsEntry>)
    ensures
        fields.len() > 0 ==> 0 <= latest_index(fields) < fields.len(),
    decreases fields.len(),
{
    if fields.len() > 1 {
        lemma_latest_index(fields.drop_last());
    }
}

/// The entry that decides who last wrote an object is a most recent one, and the last
/// of the most recent ones: no entry is more recent, and every entry after it is older.
pub proof fn lemma_latest_entry_is_most_recent(fields: Seq<ManagedFieldsEntry>)
    requires
        fields.len() > 0,
        forall|k: int| 0 <= k < fields.len() ==> #[trigger] fields[k].time is Some,
    ensures
        0 <= latest_index(fields) < fields.len(),
        forall|k: int| 0 <= k < fields.len() ==> #[trigger] fields[k].time->0.nanosecond
            <= fields[latest_index(fields)].time->0.nanosecond,
        forall|k: int| latest_index(fields) < k < fields.len() ==> #[trigger] fields[k].time->0.nanosecond
            < fields[latest_index(fields)].time->0.nanosecond,
    decreases fields.len(),
{
    lemma_latest_index(fields);
    if fields.len() > 1 {
        let init = fields.drop_last();
        assert forall|k: int| 0 <= k < init.len() implies #[trigger] init[k].time is Some by {
            assert(init[k] == fields[k]);
        }
        lemma_latest_entry_is_most_recent(init);
        let p = latest_index(init);
        assert forall|k: int| 0 <= k < fields.len() implies #[trigger] fields[k].time->0.nanosecond
            <= fields[latest_index(fields)].time->0.nanosecond by {
            if k < init.len() {
                assert(init[k] == fields[k]);
            }
        }
        assert forall|k: int| latest_index(fields) < k < fields.len() implies #[trigger] fields[k].time->0.nanosecond
            < fields[latest_index(fields)].time->0.nanosecond by {
            if k < init.len() {
                assert(init[k] == fields[k]);
            }
        }
    }
}

/// When every managed-fields entry has a time, the last writer is the manager of a most
/// recent entry, the last of them on ties, chosen among all entries: the answer is
/// `Some(b)` for the one entry `j` that no entry is more recent than and that every later
/// entry is older than, and `b` says whether `j`'s manager is `manager`.
pub proof fn lemma_last_writer_is_most_recent(f: Vec<ManagedFieldsEntry>, manager: Seq<char>)
    requires
        f@.len() > 0,
        forall|k: int| 0 <= k < f@.len() ==> #[trigger] f@[k].time is Some,
    ensures
        exists|j: int|
            #![trigger f@[j]]
            0 <= j < f@.len() && (forall|k: int|
                0 <= k < f@.len() ==> #[trigger] f@[k].time->0.nanosecond <= f@[j].time->0.nanosecond) && (
            forall|k: int| j < k < f@.len() ==> #[trigger] f@[k].time->0.nanosecond < f@[j].time->0.nanosecond)
                && last_modified_by(Some(f), manager) == Some(opt_view(f@[j].manager) == Some(manager)),
{
    lemma_latest_entry_is_most_recent(f@);
    let j = latest_index(f@);
    assert(f@[j] == f@[j]);
}

/// The entry that is most recent and last among the most recent is unique.
pub proof fn lemma_most_recent_entry_unique(f: Seq<ManagedFieldsEntry>, j1: int, j2: int)
    requires
        0 <= j1 < f.len(),
        0 <= j2 < f.len(),
        forall|k: int| 0 <= k < f.len() ==> #[trigger] f[k].time->0.nanosecond <= f[j1].time->0.nanosecond,
        forall|k: int| j1 < k < f.len() ==> #[trigger] f[k].time->0.nanosecond < f[j1].time->0.nanosecond,
        forall|k: int| 0 <= k < f.len() ==> #[trigger] f[k].time->0.nanosecond <= f[j2].time->0.nanosecond,
        forall|k: int| j2 < k < f.len() ==> #[trigger] f[k].time->0.nanosecond < f[j2].time->0.nanosecond,
    ensures
        j1 == j2,
{
    if j1 < j2 {
        assert(f[j2].time->0.nanosecond < f[j1].time->0.nanosecond);
        assert(f[j2].time->0.nanosecond <= f[j1].time->0.nanosecond);
        assert(f[j1].time->0.nanosecond <= f[j2].time->0.nanosecond);
    } else if j2 < j1 {
        assert(f[j1].time->0.nanosecond < f[j2].time->0.nanosecond);
        assert(f[j2].time->0.nanosecond <= f[j1].time->0.nanosecond);
    }
}

/// Who last wrote an object, from its managed fields.
pub trait Filterable {
    fn was_last_modified_by(&self, manager: &str) -> Option<bool>;
}

impl Filterable for ObjectMeta {
    fn was_last_modified_by(&self, manager: &str) -> (r: Option<bool>)
        ensures
            r == last_modified_by(self.managed_fields, manager@),
    {
        match &self.managed_fields {
            None => None,
            Some(f) => {
                let mut i: usize = 0;
                while i < f.len()
                    invariant
                        self.managed_fields == Some(*f),
                        i <= f.len(),
                        forall|k: int| 0 <= k < i ==> f@[k].time is Some,
                    decreases f.len() - i,
                {
                    if f[i].time.is_none() {
                        return None;
                    }
                    i = i + 1;
                }
                if f.len() == 0 {
                    return None;
                }
                let mut best: usize = 0;
                let mut j: usize = 1;
                while j < f.len()
                    invariant
                        self.managed_fields == Some(*f),
                        forall|k: int| 0 <= k < f.len() ==> f@[k].time is Some,
                        1 <= j <= f.len(),
                        best as int == latest_index(f@.take(j as int)),
                        best < j,
                    decreases f.len() - j,
                {
                    proof {
                        assert(f@.take(j + 1).drop_last() =~= f@.take(j as int));
                        lemma_latest_index(f@.take(j as int));
                    }
                    let t_new = f[j].time.unwrap().nanosecond;
                    let t_best = f[best].time.unwrap().nanosecond;
                    if t_new >= t_best {
                        best = j;
                    }
                    j = j + 1;
                }
                proof { assert(f@.take(f.len() as int) =~= f@); }
                match &f[best].manager {
                    Some(m) => Some(str_eq(m.as_str(), manager)),
                    None => Some(false),
                }
            },
        }
    }
}

} // verus!
