//! The registry of running watchers: at most one per key, each with the handle that
//! stops it.
use vstd::prelude::*;

use crate::json::{first_from, lemma_first_from, lemma_first_from_is};
use crate::remote_watcher::{RemoteWatcherKey, RemoteWatcherKeyView};

verus! {

/// The running watchers, each under its key with the handle that stops it.
pub struct WatcherRegistry<H> {
    entries: Vec<(RemoteWatcherKey, H)>,
}

impl<H> WatcherRegistry<H> {
    /// The keys, in the order the watchers were registered.
    pub closed spec fn keys(&self) -> Seq<RemoteWatcherKeyView> {
        Seq::new(self.entries@.len(), |i: int| self.entries@[i].0@)
    }

    /// Whether the watcher at index `i` is registered under `key`.
    pub closed spec fn matches_key(&self, key: RemoteWatcherKeyView) -> spec_fn(int) -> bool {
        |i: int| self.entries@[i].0@ == key
    }

    /// Where `key` is registered (the number of watchers when it is not).
    pub closed spec fn position(&self, key: RemoteWatcherKeyView) -> int {
        first_from(0, self.entries@.len() as int, self.matches_key(key))
    }

    /// No key is registered twice.
    pub closed spec fn wf(&self) -> bool {
        forall|i: int, j: int|
            0 <= i < j < self.entries@.len() ==> #[trigger] self.entries@[i].0@ != #[trigger] self.entries@[j].0@
    }

    proof fn lemma_position(&self, key: RemoteWatcherKeyView)
        ensures
            0 <= self.position(key) <= self.entries@.len(),
            self.position(key) < self.entries@.len() ==> self.entries@[self.position(key)].0@ == key,
            forall|i: int| 0 <= i < self.position(key) ==> self.entries@[i].0@ != key,
    {
        let p = self.matches_key(key);
        lemma_first_from(0, self.entries@.len() as int, p);
        assert forall|i: int| 0 <= i < self.position(key) implies self.entries@[i].0@ != key by {
            assert(!p(i));
        }
    }
}

impl<H> View for WatcherRegistry<H> {
    type V = Map<RemoteWatcherKeyView, H>;

    /// The handle registered under each key.
    closed spec fn view(&self) -> Map<RemoteWatcherKeyView, H> {
        Map::new(
            |k: RemoteWatcherKeyView| self.position(k) < self.entries@.len(),
            |k: RemoteWatcherKeyView| self.entries@[self.position(k)].1,
        )
    }
}

impl<H> WatcherRegistry<H> {
    /// An empty registry.
    pub fn new() -> (r: WatcherRegistry<H>)
        ensures
            r.wf(),
            r@ == Map::<RemoteWatcherKeyView, H>::empty(),
    {
        let r = WatcherRegistry { entries: Vec::new() };
        assert(r@ =~= Map::<RemoteWatcherKeyView, H>::empty());
        r
    }

    fn find(&self, key: &RemoteWatcherKey) -> (r: usize)
        ensures
            r == self.position(key@),
    {
        let ghost p = self.matches_key(key@);
        let mut i: usize = 0;
        while i < self.entries.len()
            invariant
                p == self.matches_key(key@),
                i <= self.entries.len(),
                forall|k: int| 0 <= k < i ==> !#[trigger] p(k),
            decreases self.entries.len() - i,
        {
            if self.entries[i].0.same_as(key) {
                proof { lemma_first_from_is(0, self.entries@.len() as int, p, i as int); }
                return i;
            }
            i = i + 1;
        }
        proof { lemma_first_from_is(0, self.entries@.len() as int, p, i as int); }
        i
    }

    /// Whether a watcher runs under `key`.
    pub fn contains(&self, key: &RemoteWatcherKey) -> (r: bool)
        ensures
            r == self@.contains_key(key@),
    {
        self.find(key) < self.entries.len()
    }

    /// Registers the watcher of `key`, which must not be registered yet.
    pub fn insert(&mut self, key: RemoteWatcherKey, handle: H)
        requires
            old(self).wf(),
            !old(self)@.contains_key(key@),
        ensures
            final(self).wf(),
            final(self)@ == old(self)@.insert(key@, handle),
    {
        let ghost before = *self;
        let ghost k = key@;
        let ghost n = self.entries@.len();
        let ghost pair = (key, handle);
        proof { before.lemma_position(k); }
        self.entries.push((key, handle));
        proof {
            assert(self.entries@ == before.entries@.push(pair));
            assert(self.entries@[n as int].0@ == k);
            assert forall|i: int, j: int|
                0 <= i < j < self.entries@.len() implies #[trigger] self.entries@[i].0@
                != #[trigger] self.entries@[j].0@ by {
                if j == n {
                    assert(before.entries@[i].0@ != k);
                } else {
                    assert(before.entries@[i] == self.entries@[i]);
                    assert(before.entries@[j] == self.entries@[j]);
                }
            }
            assert forall|other: RemoteWatcherKeyView| #[trigger] self.position(other) == (if other
                == k {
                n as int
            } else if before.position(other) < n {
                before.position(other)
            } else {
                (n + 1) as int
            }) by {
                before.lemma_position(other);
                let p = self.matches_key(other);
                let q = if other == k {
                    n as int
                } else if before.position(other) < n {
                    before.position(other)
                } else {
                    (n + 1) as int
                };
                if other != k && q == n + 1 {
                    assert(!p(n as int));
                }
                if other != k && q < n {
                    assert(self.entries@[q] == before.entries@[q]);
                    assert(p(q));
                }
                if other == k {
                    assert(p(q));
                }
                assert forall|i: int| 0 <= i < q implies !#[trigger] p(i) by {
                    if i < n {
                        assert(self.entries@[i] == before.entries@[i]);
                    }
                }
                lemma_first_from_is(0, self.entries@.len() as int, p, q);
            }
            assert forall|other: RemoteWatcherKeyView| #[trigger] self@.contains_key(other)
                == before@.insert(k, handle).contains_key(other) by {
                before.lemma_position(other);
            }
            assert forall|other: RemoteWatcherKeyView| self@.contains_key(other) implies #[trigger] self@[other]
                == before@.insert(k, handle)[other] by {
                before.lemma_position(other);
                if other != k {
                    assert(self.entries@[before.position(other)] == before.entries@[before.position(
                        other,
                    )]);
                }
            }
            assert(self@ =~= before@.insert(k, handle));
        }
    }

    /// Unregisters the watcher of `key` and hands back its handle, if it was registered.
    pub fn remove(&mut self, key: &RemoteWatcherKey) -> (r: Option<H>)
        requires
            old(self).wf(),
        ensures
            final(self).wf(),
            final(self)@ == old(self)@.remove(key@),
            r == (if old(self)@.contains_key(key@) {
                Some(old(self)@[key@])
            } else {
                None
            }),
    {
        let ghost before = *self;
        let ghost k = key@;
        let p = self.find(key);
        proof { before.lemma_position(k); }
        if p < self.entries.len() {
            let ghost n = self.entries@.len();
            let (_, handle) = self.entries.remove(p);
            proof {
                assert(self.entries@ =~= before.entries@.remove(p as int));
                assert forall|i: int, j: int|
                    0 <= i < j < self.entries@.len() implies #[trigger] self.entries@[i].0@
                    != #[trigger] self.entries@[j].0@ by {
                    let bi = if i < p {
                        i
                    } else {
                        i + 1
                    };
                    let bj = if j < p {
                        j
                    } else {
                        j + 1
                    };
                    assert(self.entries@[i] == before.entries@[bi]);
                    assert(self.entries@[j] == before.entries@[bj]);
                    assert(before.entries@[bi].0@ != before.entries@[bj].0@);
                }
                assert forall|other: RemoteWatcherKeyView| #[trigger] self.position(other) == (if other
                    == k {
                    (n - 1) as int
                } else if before.position(other) < p {
                    before.position(other)
                } else {
                    before.position(other) - 1
                }) by {
                    before.lemma_position(other);
                    let f = self.matches_key(other);
                    let q = if other == k {
                        (n - 1) as int
                    } else if before.position(other) < p {
                        before.position(other)
                    } else {
                        before.position(other) - 1
                    };
                    if other == k {
                        assert forall|i: int| 0 <= i < q implies !#[trigger] f(i) by {
                            let bi = if i < p {
                                i
                            } else {
                                i + 1
                            };
                            assert(self.entries@[i] == before.entries@[bi]);
                            assert(before.entries@[bi].0@ != before.entries@[p as int].0@);
                        }
                    } else {
                        assert(before.position(other) != p);
                        assert forall|i: int| 0 <= i < q implies !#[trigger] f(i) by {
                            let bi = if i < p {
                                i
                            } else {
                                i + 1
                            };
                            assert(self.entries@[i] == before.entries@[bi]);
                        }
                        if q < self.entries@.len() {
                            let bq = if q < p {
                                q
                            } else {
                                q + 1
                            };
                            assert(self.entries@[q] == before.entries@[bq]);
                        }
                    }
                    lemma_first_from_is(0, self.entries@.len() as int, f, q);
                }
                assert forall|other: RemoteWatcherKeyView| #[trigger] self@.contains_key(other)
                    == before@.remove(k).contains_key(other) by {
                    before.lemma_position(other);
                }
                assert forall|other: RemoteWatcherKeyView| self@.contains_key(other) implies #[trigger] self@[other]
                    == before@.remove(k)[other] by {
                    before.lemma_position(other);
                    let q = before.position(other);
                    if q < p {
                        assert(self.entries@[q] == before.entries@[q]);
                    } else {
                        assert(self.entries@[q - 1] == before.entries@[q]);
                    }
                }
                assert(self@ =~= before@.remove(k));
            }
            Some(handle)
        } else {
            proof {
                assert(self@ =~= before@.remove(k));
            }
            None
        }
    }

    /// Unregisters every watcher and hands back the keys and handles, each key once.
    pub fn take_all(&mut self) -> (r: Vec<(RemoteWatcherKey, H)>)
        requires
            old(self).wf(),
        ensures
            final(self).wf(),
            final(self)@ == Map::<RemoteWatcherKeyView, H>::empty(),
            forall|i: int, j: int| 0 <= i < j < r@.len() ==> #[trigger] r@[i].0@ != #[trigger] r@[j].0@,
            forall|k: RemoteWatcherKeyView| #[trigger] old(self)@.contains_key(k) <==> exists|i: int|
                0 <= i < r@.len() && r@[i].0@ == k,
            forall|i: int| 0 <= i < r@.len() ==> old(self)@[#[trigger] r@[i].0@] == r@[i].1,
    {
        let ghost before = *self;
        let mut taken: Vec<(RemoteWatcherKey, H)> = Vec::new();
        std::mem::swap(&mut taken, &mut self.entries);
        proof {
            assert forall|k: RemoteWatcherKeyView| #[trigger] before@.contains_key(k) <==> exists|i: int|
                0 <= i < taken@.len() && taken@[i].0@ == k by {
                before.lemma_position(k);
                if exists|i: int| 0 <= i < taken@.len() && taken@[i].0@ == k {
                    let i = choose|i: int| 0 <= i < taken@.len() && taken@[i].0@ == k;
                    assert(!(i < before.position(k)));
                }
            }
            assert forall|i: int| 0 <= i < taken@.len() implies before@[#[trigger] taken@[i].0@]
                == taken@[i].1 by {
                let k = taken@[i].0@;
                before.lemma_position(k);
                let q = before.position(k);
                assert(!(i < q));
                if q < i {
                    assert(before.entries@[q].0@ != before.entries@[i].0@);
                }
            }
            assert(self@ =~= Map::<RemoteWatcherKeyView, H>::empty());
        }
        taken
    }
}

/// Registering a watcher and then stopping it leaves the registry as it was; stopping a
/// watcher leaves every other watcher registered, with its handle; stopping one that is
/// not registered changes nothing.
pub proof fn lemma_register_then_stop<H>(
    registry: Map<RemoteWatcherKeyView, H>,
    key: RemoteWatcherKeyView,
    handle: H,
)
    requires
        !registry.contains_key(key),
    ensures
        registry.insert(key, handle).remove(key) == registry,
        forall|other: RemoteWatcherKeyView|
            other != key ==> (#[trigger] registry.insert(key, handle).remove(other).contains_key(key)
                && registry.insert(key, handle).remove(other)[key] == handle),
        registry.remove(key) == registry,
{
    assert(registry.insert(key, handle).remove(key) =~= registry);
    assert(registry.remove(key) =~= registry);
}

} // verus!
