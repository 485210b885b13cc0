//! The registry itself.

use vstd::prelude::*;
use vstd::std_specs::iter::IteratorSpec;
use crate::handle::Handle;
use crate::laws::dense_holds_the_live;
use crate::model::{
    delivered_preserves, inserted_preserves, lemma_push_contains, lemma_swap_removed_contains, purged,
    removed_preserves, replaced_preserves, resolves, swap_removed, RegistryView,
};
use crate::object::Object;

verus! {

/// The stable ids that the handles of `s` wrap.
spec fn ids(s: Seq<Handle>) -> Seq<nat> {
    s.map_values(|handle: Handle| handle@)
}

/// The entries of a sparse map as mathematical integers.
spec fn slots(s: Seq<Option<usize>>) -> Seq<Option<nat>> {
    s.map_values(
        |slot: Option<usize>|
            match slot {
                Some(p) => Some(p as nat),
                None => None,
            },
    )
}

proof fn lemma_ids_push(s: Seq<Handle>, handle: Handle)
    ensures
        ids(s.push(handle)) == ids(s).push(handle@),
{
    assert(ids(s.push(handle)) =~= ids(s).push(handle@));
}

proof fn lemma_ids_swap_removed(s: Seq<Handle>, i: int)
    requires
        0 <= i < s.len(),
    ensures
        ids(swap_removed(s, i)) == swap_removed(ids(s), i),
{
    assert(ids(swap_removed(s, i)) =~= swap_removed(ids(s), i));
}

proof fn lemma_slots_push(s: Seq<Option<usize>>, p: usize)
    ensures
        slots(s.push(Some(p))) == slots(s).push(Some(p as nat)),
{
    assert(slots(s.push(Some(p))) =~= slots(s).push(Some(p as nat)));
}

proof fn lemma_slots_update(s: Seq<Option<usize>>, id: int, slot: Option<usize>)
    requires
        0 <= id < s.len(),
    ensures
        slots(s.update(id, slot)) == slots(s).update(
            id,
            match slot {
                Some(p) => Some(p as nat),
                None => None,
            },
        ),
{
    assert(slots(s.update(id, slot)) =~= slots(s).update(
        id,
        match slot {
            Some(p) => Some(p as nat),
            None => None,
        },
    ));
}

/// Owner of a set of objects, which it hands back on removal.
pub struct Registry<T> {
    objects: Vec<T>,
    owners: Vec<Handle>,
    sparse: Vec<Option<usize>>,
    indices: Vec<Vec<Handle>>,
}

impl<T> View for Registry<T> {
    type V = RegistryView<T>;

    closed spec fn view(&self) -> RegistryView<T> {
        RegistryView {
            dense: self.objects@,
            owners: ids(self.owners@),
            sparse: slots(self.sparse@),
            indices: Seq::new(self.indices@.len(), |c: int| ids(self.indices@[c]@)),
        }
    }
}

impl<T: Object> Registry<T> {
    /// Whether the registry's structure is intact.
    pub open spec fn wf(&self) -> bool {
        self@.valid()
    }

    /// An empty registry with one empty index per declared capability.
    pub fn new() -> (registry: Self)
        ensures
            registry@ == RegistryView::<T>::empty(),
            registry.wf(),
            registry@.coherent(),
    {
        let count = T::capability_count();
        let mut indices: Vec<Vec<Handle>> = Vec::new();
        let mut c: usize = 0;
        while c < count
            invariant
                c <= count,
                indices@.len() == c,
                forall|j: int| 0 <= j < c ==> (#[trigger] indices@[j])@ == Seq::<Handle>::empty(),
            decreases count - c,
        {
            indices.push(Vec::new());
            c += 1;
        }
        let registry = Registry {
            objects: Vec::new(),
            owners: Vec::new(),
            sparse: Vec::new(),
            indices,
        };
        assert(registry@.indices =~= RegistryView::<T>::empty().indices) by {
            assert forall|j: int| 0 <= j < count implies registry@.indices[j]
                == Seq::<nat>::empty() by {
                assert(ids(registry.indices@[j]@) =~= Seq::<nat>::empty());
            }
        }
        assert(registry@.owners =~= Seq::<nat>::empty());
        assert(registry@.sparse =~= Seq::<Option<nat>>::empty());
        registry
    }

    /// Takes `object` into the registry and hands out the handle that names
    /// it from now on.
    ///
    /// The object goes to the end of the dense store and gets the next
    /// stable id. Every capability is probed once, here, and the id is
    /// appended to the index of each capability that the object supports.
    pub fn insert(&mut self, object: T) -> (handle: Handle)
        requires
            old(self).wf(),
        ensures
            final(self).wf(),
            handle@ == old(self)@.next_id(),
            final(self)@ == old(self)@.inserted(object),
            old(self)@.coherent() ==> final(self)@.coherent(),
    {
        proof {
            inserted_preserves(self@, object);
        }
        let ghost before = self@;
        let handle = Handle::issue(self.sparse.len());
        let ghost id = handle@;
        let count = self.indices.len();
        let mut c: usize = 0;
        while c < count
            invariant
                c <= count,
                count == before.indices.len(),
                self.indices@.len() == count,
                self.objects == old(self).objects,
                self.owners == old(self).owners,
                self.sparse == old(self).sparse,
                id == handle@,
                id == before.next_id(),
                self@.indices.len() == count,
                forall|k: int|
                    0 <= k < c ==> #[trigger] self@.indices[k] == (if object.supports(k as nat) {
                        before.indices[k].push(id)
                    } else {
                        before.indices[k]
                    }),
                forall|k: int| c <= k < count ==> #[trigger] self@.indices[k] == before.indices[k],
            decreases count - c,
        {
            let ghost current = self@;
            assert(current.indices[c as int] == before.indices[c as int]);
            if object.probe(c).is_some() {
                proof {
                    lemma_ids_push(self.indices@[c as int]@, handle);
                }
                self.indices[c].push(handle);
                assert(self@.indices[c as int] == before.indices[c as int].push(id));
            }
            c += 1;
            assert forall|k: int| 0 <= k < c implies #[trigger] self@.indices[k] == (
            if object.supports(k as nat) {
                before.indices[k].push(id)
            } else {
                before.indices[k]
            }) by {
                if k < c - 1 {
                    assert(self@.indices[k] == current.indices[k]);
                }
            }
            assert forall|k: int| c <= k < count implies #[trigger] self@.indices[k]
                == before.indices[k] by {
                assert(self@.indices[k] == current.indices[k]);
            }
        }
        proof {
            lemma_slots_push(self.sparse@, self.objects.len());
            lemma_ids_push(self.owners@, handle);
        }
        self.sparse.push(Some(self.objects.len()));
        self.owners.push(handle);
        self.objects.push(object);
        assert(self@.indices =~= before.inserted(object).indices);
        handle
    }

    /// The object that `handle` names, or nothing if it names none.
    pub fn get(&self, handle: Handle) -> (found: Option<&T>)
        requires
            self.wf(),
        ensures
            found == match self@.get(handle@) {
                Some(object) => Some(&object),
                None => None,
            },
    {
        let id = handle.id();
        if id >= self.sparse.len() {
            return None;
        }
        match self.sparse[id] {
            None => None,
            Some(p) => Some(&self.objects[p]),
        }
    }

    /// The object that `handle` names, for mutation, or nothing if it names
    /// none. What the caller leaves behind the reference takes the object's
    /// place; the capability indices stay exact as long as it supports what
    /// the object supported.
    pub fn get_mut(&mut self, handle: Handle) -> (found: Option<&mut T>)
        requires
            old(self).wf(),
        ensures
            match found {
                Some(object) => {
                    &&& old(self)@.get(handle@) == Some(*object)
                    &&& final(self)@ == old(self)@.replaced(handle@, *final(object))
                    &&& old(self)@.coherent() && (forall|c: nat|
                        final(object).supports(c) == object.supports(c))
                        ==> final(self)@.coherent()
                },
                None => {
                    &&& old(self)@.get(handle@) is None
                    &&& final(self)@ == old(self)@
                },
            },
            final(self).wf(),
    {
        let id = handle.id();
        if id >= self.sparse.len() {
            return None;
        }
        match self.sparse[id] {
            None => None,
            Some(p) => {
                let object = &mut self.objects[p];
                proof {
                    replaced_preserves(old(self)@, handle@, *final(object));
                }
                Some(object)
            },
        }
    }

    /// The registered objects in the order of the dense store, which is the
    /// order of insertion as far as removals have not moved objects into
    /// gaps.
    pub fn iterate(&self) -> (objects: std::slice::Iter<'_, T>)
        ensures
            objects.remaining() == self@.dense.as_ref(),
            objects.obeys_prophetic_iter_laws(),
            objects.decrease() is Some,
            objects.initial_value_relation(&objects),
    {
        self.objects.iter()
    }

    /// The dense store for mutation in place. The slice can be walked any
    /// number of times; it cannot grow or shrink, so the registry's structure
    /// is out of the caller's reach.
    pub fn iterate_mut(&mut self) -> (objects: &mut [T])
        requires
            old(self).wf(),
        ensures
            objects@ == old(self)@.dense,
            final(self)@ == old(self)@.with_dense(final(objects)@),
            final(objects)@.len() == objects@.len() ==> final(self).wf(),
    {
        self.objects.as_mut_slice()
    }

    /// The handles that the index of `capability` lists at present, those of
    /// removed objects included; nothing for a capability that the schema
    /// does not declare.
    pub fn index(&self, capability: usize) -> (listed: Option<&[Handle]>)
        ensures
            match listed {
                Some(listed) => {
                    &&& capability < self@.indices.len()
                    &&& listed@.map_values(|handle: Handle| handle@)
                        == self@.indices[capability as int]
                },
                None => capability >= self@.indices.len(),
            },
    {
        if capability < self.indices.len() {
            Some(self.indices[capability].as_slice())
        } else {
            None
        }
    }

    /// Takes the object that `handle` names out of the registry and hands it
    /// back; does nothing if `handle` names none.
    ///
    /// The last object of the dense store moves into the gap, and the sparse
    /// entry of the id that owns it follows. The capability indices are left
    /// as they are.
    pub fn remove(&mut self, handle: Handle) -> (removed: Option<T>)
        requires
            old(self).wf(),
        ensures
            final(self).wf(),
            removed == old(self)@.get(handle@),
            final(self)@ == old(self)@.removed(handle@),
            old(self)@.coherent() ==> final(self)@.coherent(),
    {
        proof {
            removed_preserves(self@, handle@);
        }
        let id = handle.id();
        if id >= self.sparse.len() {
            return None;
        }
        match self.sparse[id] {
            None => None,
            Some(p) => {
                let last = self.objects.len() - 1;
                let moved = self.owners[last].id();
                proof {
                    lemma_ids_swap_removed(self.owners@, p as int);
                    lemma_slots_update(self.sparse@, moved as int, Some(p));
                    lemma_slots_update(self.sparse@.update(moved as int, Some(p)), id as int, None);
                }
                let object = self.objects.swap_remove(p);
                self.owners.swap_remove(p);
                self.sparse[moved] = Some(p);
                self.sparse[id] = None;
                assert(self@ =~~= old(self)@.removed(handle@));
                Some(object)
            },
        }
    }

    /// Invokes the slot of `signal` once on every registered object that
    /// supports the signal's capability, and on no other.
    ///
    /// The objects are visited in the order of the capability's index. An id
    /// in the index that no longer resolves is evicted by a swap-remove, and
    /// the id that takes its place is looked at before the walk moves on.
    pub fn broadcast(&mut self, signal: &T::Signal)
        requires
            old(self).wf(),
            old(self)@.coherent(),
            old(self)@.receptive(*signal),
        ensures
            final(self).wf(),
            final(self)@.coherent(),
            final(self)@ == old(self)@.delivered(*signal),
            forall|p: int|
                0 <= p < old(self)@.dense.len() ==> #[trigger] final(self)@.dense[p] == (if old(
                    self,
                )@.dense[p].supports(T::signal_capability(*signal)) {
                    old(self)@.dense[p].handled(*signal)
                } else {
                    old(self)@.dense[p]
                }),
    {
        let c = T::capability_of(signal);
        let ghost before = self@;
        proof {
            T::signals_are_declared(*signal);
            delivered_preserves(before, *signal);
        }
        let ghost start = before.indices[c as int];
        assert(start.no_duplicates());
        let mut i: usize = 0;
        while i < self.indices[c].len()
            invariant
                before.valid(),
                before.coherent(),
                before.receptive(*signal),
                c == T::signal_capability(*signal),
                c < before.indices.len(),
                start == before.indices[c as int],
                self@.owners == before.owners,
                self@.sparse == before.sparse,
                self@.dense.len() == before.dense.len(),
                self@.indices.len() == before.indices.len(),
                self.indices@.len() == before.indices.len(),
                forall|k: int|
                    0 <= k < before.indices.len() && k != c ==> #[trigger] self@.indices[k]
                        == before.indices[k],
                self@.indices[c as int] == ids(self.indices@[c as int]@),
                i <= self@.indices[c as int].len(),
                self@.indices[c as int].no_duplicates(),
                purged(self@.indices[c as int], before.sparse, i as nat) == purged(
                    start,
                    before.sparse,
                    0,
                ),
                forall|j: int|
                    0 <= j < i ==> resolves(before.sparse, #[trigger] self@.indices[c as int][j]),
                forall|id: nat| #[trigger]
                    self@.indices[c as int].contains(id) ==> start.contains(id),
                forall|id: nat|
                    resolves(before.sparse, id) && start.contains(id)
                        ==> #[trigger] self@.indices[c as int].contains(id),
                forall|p: int|
                    0 <= p < before.dense.len() ==> #[trigger] self@.dense[p] == (
                    if self@.indices[c as int].take(i as int).contains(before.owners[p]) {
                        before.dense[p].handled(*signal)
                    } else {
                        before.dense[p]
                    }),
            decreases self.indices@[c as int]@.len() - i,
        {
            let ghost current = self@;
            let ghost index = current.indices[c as int];
            let id = self.indices[c][i].id();
            assert(index[i as int] == id);
            assert(index.contains(id as nat));
            assert(id < before.sparse.len()) by {
                let j = choose|j: int| 0 <= j < start.len() && start[j] == id as nat;
                assert(before.indices[c as int][j] < before.sparse.len());
            }
            assert(slots(self.sparse@)[id as int] is Some == self.sparse@[id as int] is Some);
            match self.sparse[id] {
                Some(p) => {
                    assert(resolves(before.sparse, id as nat));
                    assert(before.owners[p as int] == id);
                    assert(before.lists(c as nat, p as int));
                    assert(!index.take(i as int).contains(id as nat)) by {
                        if index.take(i as int).contains(id as nat) {
                            let j = choose|j: int|
                                0 <= j < index.take(i as int).len() && index.take(i as int)[j]
                                    == id as nat;
                            assert(index[j] == index[i as int]);
                        }
                    }
                    self.objects[p].probe_mut(c).unwrap().slot(signal);
                    i += 1;
                    proof {
                        assert(self@.indices =~= current.indices);
                        assert(index.take(i as int) =~= index.take(i - 1).push(id as nat));
                        assert forall|q: int| 0 <= q < before.dense.len() implies #[trigger]
                            self@.dense[q] == (if index.take(i as int).contains(before.owners[q]) {
                            before.dense[q].handled(*signal)
                        } else {
                            before.dense[q]
                        }) by {
                            lemma_push_contains(index.take(i - 1), id as nat, before.owners[q]);
                            if q != p {
                                assert(before.sparse[before.owners[q] as int] == Some(q as nat));
                            }
                        }
                    }
                },
                None => {
                    proof {
                        lemma_ids_swap_removed(self.indices@[c as int]@, i as int);
                        lemma_swap_removed_contains(index, i as int);
                    }
                    self.indices[c].swap_remove(i);
                    proof {
                        let next = swap_removed(index, i as int);
                        assert(self@.indices[c as int] == next);
                        assert(self@.indices =~= current.indices.update(c as int, next));
                        assert(next.take(i as int) =~= index.take(i as int));
                    }
                },
            }
        }
        proof {
            let index = self@.indices[c as int];
            assert(index.take(i as int) =~= index);
            assert(self@.indices =~= before.indices.update(
                c as int,
                purged(start, before.sparse, 0),
            ));
            assert forall|p: int| 0 <= p < before.dense.len() implies self@.dense[p]
                == before.delivered(*signal).dense[p] by {
                assert(resolves(before.sparse, before.owners[p]));
            }
            assert(self@.dense =~= before.delivered(*signal).dense);
            assert forall|p: int| 0 <= p < before.dense.len() implies #[trigger] self@.dense[p]
                == (if before.dense[p].supports(T::signal_capability(*signal)) {
                before.dense[p].handled(*signal)
            } else {
                before.dense[p]
            }) by {
                assert(before.lists(c as nat, p) == before.dense[p].supports(c as nat));
            }
        }
    }

    /// The number of registered objects: the length of the dense store,
    /// which is the number of handles handed out and not yet removed.
    pub fn len(&self) -> (count: usize)
        ensures
            count == self@.dense.len(),
            self.wf() ==> count == self@.live().len(),
    {
        proof {
            if self.wf() {
                dense_holds_the_live(self@);
            }
        }
        self.objects.len()
    }

    /// Whether no object is registered.
    pub fn is_empty(&self) -> (empty: bool)
        ensures
            empty == (self@.dense.len() == 0),
    {
        self.objects.is_empty()
    }
}

} // verus!
