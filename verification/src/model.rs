//! The mathematical model of a registry: the dense store, the back-array,
//! the sparse map and the capability indices as sequences, and what each
//! operation makes of them.

use vstd::prelude::*;
use crate::object::Object;

verus! {

/// The sequence after a swap-remove at `i`: the last element takes the place
/// of the one at `i` and the sequence shrinks by one.
pub open spec fn swap_removed<A>(s: Seq<A>, i: int) -> Seq<A>
    recommends
        0 <= i < s.len(),
{
    s.update(i, s.last()).drop_last()
}

/// Whether `id` resolves through `sparse` to a dense position.
pub open spec fn resolves(sparse: Seq<Option<nat>>, id: nat) -> bool {
    id < sparse.len() && sparse[id as int] is Some
}

/// A capability index after the eviction pass of a broadcast has gone on
/// from position `from`: an id that resolves stays where it is and the pass
/// moves on; one that does not is swap-removed and the id that took its place
/// is looked at next.
pub open spec fn purged(index: Seq<nat>, sparse: Seq<Option<nat>>, from: nat) -> Seq<nat>
    decreases index.len() - from,
{
    if from >= index.len() {
        index
    } else if resolves(sparse, index[from as int]) {
        purged(index, sparse, from + 1)
    } else {
        purged(swap_removed(index, from as int), sparse, from)
    }
}

/// The state of a registry.
#[verifier::ext_equal]
pub struct RegistryView<T> {
    /// The dense store: the registered objects, without gaps.
    pub dense: Seq<T>,
    /// For each dense position, the stable id of the object that is there.
    pub owners: Seq<nat>,
    /// For each stable id ever allocated, the dense position of its object,
    /// or `None` once the object has been removed.
    pub sparse: Seq<Option<nat>>,
    /// For each capability, the ids of the objects that supported it when
    /// they were inserted, removed ones included until a broadcast evicts
    /// them.
    pub indices: Seq<Seq<nat>>,
}

impl<T: Object> RegistryView<T> {
    /// The registry that holds nothing.
    pub open spec fn empty() -> Self {
        RegistryView {
            dense: Seq::empty(),
            owners: Seq::empty(),
            sparse: Seq::empty(),
            indices: Seq::new(T::capabilities(), |c: int| Seq::<nat>::empty()),
        }
    }

    /// The stable id that the next insertion allocates.
    pub open spec fn next_id(self) -> nat {
        self.sparse.len()
    }

    /// Whether `id` names a registered object.
    pub open spec fn contains(self, id: nat) -> bool {
        resolves(self.sparse, id)
    }

    /// The dense position of the object that `id` names.
    pub open spec fn position(self, id: nat) -> int
        recommends
            self.contains(id),
    {
        self.sparse[id as int]->0 as int
    }

    /// The object that `id` names, if it is registered.
    pub open spec fn get(self, id: nat) -> Option<T> {
        if self.contains(id) {
            Some(self.dense[self.position(id)])
        } else {
            None
        }
    }

    /// Whether the index of `capability` lists the object at dense position
    /// `p`.
    pub open spec fn lists(self, capability: nat, p: int) -> bool {
        self.indices[capability as int].contains(self.owners[p])
    }

    /// The state after `object` has been inserted.
    pub open spec fn inserted(self, object: T) -> Self {
        let id = self.next_id();
        RegistryView {
            dense: self.dense.push(object),
            owners: self.owners.push(id),
            sparse: self.sparse.push(Some(self.dense.len())),
            indices: Seq::new(
                self.indices.len(),
                |c: int|
                    if object.supports(c as nat) {
                        self.indices[c].push(id)
                    } else {
                        self.indices[c]
                    },
            ),
        }
    }

    /// The state after the object that `id` names has been removed; the state
    /// itself where `id` names none.
    pub open spec fn removed(self, id: nat) -> Self {
        if self.contains(id) {
            let p = self.position(id);
            let moved = self.owners.last();
            RegistryView {
                dense: swap_removed(self.dense, p),
                owners: swap_removed(self.owners, p),
                sparse: self.sparse.update(moved as int, Some(p as nat)).update(id as int, None),
                indices: self.indices,
            }
        } else {
            self
        }
    }

    /// The state with the dense store exchanged for `dense`.
    pub open spec fn with_dense(self, dense: Seq<T>) -> Self {
        RegistryView { dense, owners: self.owners, sparse: self.sparse, indices: self.indices }
    }

    /// The state with `object` in place of the object that `id` names; the
    /// state itself where `id` names none.
    pub open spec fn replaced(self, id: nat, object: T) -> Self {
        if self.contains(id) {
            self.with_dense(self.dense.update(self.position(id), object))
        } else {
            self
        }
    }

    /// The state after `signal` has been broadcast: the slot has run on the
    /// objects that the signal's capability index lists, and the index has
    /// been purged of the ids that no longer resolve.
    pub open spec fn delivered(self, signal: T::Signal) -> Self {
        let c = T::signal_capability(signal);
        RegistryView {
            dense: Seq::new(
                self.dense.len(),
                |p: int|
                    if self.lists(c, p) {
                        self.dense[p].handled(signal)
                    } else {
                        self.dense[p]
                    },
            ),
            owners: self.owners,
            sparse: self.sparse,
            indices: self.indices.update(
                c as int,
                purged(self.indices[c as int], self.sparse, 0),
            ),
        }
    }

    /// The structure that every operation keeps: the sparse map and the
    /// back-array are inverse to each other, and every capability index
    /// lists allocated ids, none of them twice.
    pub open spec fn valid(self) -> bool {
        &&& self.owners.len() == self.dense.len()
        &&& forall|p: int|
            0 <= p < self.owners.len() ==> {
                &&& (#[trigger] self.owners[p]) < self.sparse.len()
                &&& self.sparse[self.owners[p] as int] == Some(p as nat)
            }
        &&& forall|id: int|
            0 <= id < self.sparse.len() && (#[trigger] self.sparse[id]) is Some ==> {
                &&& self.sparse[id]->0 < self.owners.len()
                &&& self.owners[self.sparse[id]->0 as int] == id
            }
        &&& self.indices.len() == T::capabilities()
        &&& forall|c: int, i: int|
            0 <= c < self.indices.len() && 0 <= i < self.indices[c].len() ==> (
            #[trigger] self.indices[c][i]) < self.sparse.len()
        &&& forall|c: int|
            0 <= c < self.indices.len() ==> (#[trigger] self.indices[c]).no_duplicates()
    }

    /// Every capability index lists exactly those registered objects that
    /// support its capability.
    pub open spec fn coherent(self) -> bool {
        forall|c: nat, p: int|
            c < self.indices.len() && 0 <= p < self.dense.len() ==> (#[trigger] self.lists(c, p))
                == self.dense[p].supports(c)
    }

    /// Every registered object that supports the capability of `signal`
    /// accepts the signal.
    pub open spec fn receptive(self, signal: T::Signal) -> bool {
        forall|p: int|
            0 <= p < self.dense.len() && (#[trigger] self.dense[p]).supports(
                T::signal_capability(signal),
            ) ==> self.dense[p].accepts(signal)
    }
}

/// Insertion keeps the structure, and keeps the capability indices exact.
pub proof fn inserted_preserves<T: Object>(view: RegistryView<T>, object: T)
    requires
        view.valid(),
    ensures
        view.inserted(object).valid(),
        view.coherent() ==> view.inserted(object).coherent(),
{
    let after = view.inserted(object);
    let id = view.next_id();
    assert forall|c: int| 0 <= c < after.indices.len() implies (#[trigger] after.indices[c]).no_duplicates()
        && !view.indices[c].contains(id) by {
        assert(view.indices[c].no_duplicates());
        if view.indices[c].contains(id) {
            let i = choose|i: int| 0 <= i < view.indices[c].len() && view.indices[c][i] == id;
            assert(view.indices[c][i] < view.sparse.len());
        }
    }
    if view.coherent() {
        assert forall|c: nat, p: int|
            c < after.indices.len() && 0 <= p < after.dense.len() implies (#[trigger] after.lists(c, p))
            == after.dense[p].supports(c) by {
            assert(!view.indices[c as int].contains(id));
            if p < view.dense.len() {
                assert(view.lists(c, p) == view.dense[p].supports(c));
                assert(view.owners[p] < view.sparse.len());
                if object.supports(c) {
                    lemma_push_contains(view.indices[c as int], id, view.owners[p]);
                }
            } else {
                if object.supports(c) {
                    lemma_push_contains(view.indices[c as int], id, id);
                }
            }
        }
    }
}

/// Removal keeps the structure, and keeps the capability indices exact.
pub proof fn removed_preserves<T: Object>(view: RegistryView<T>, id: nat)
    requires
        view.valid(),
    ensures
        view.removed(id).valid(),
        view.coherent() ==> view.removed(id).coherent(),
{
    let after = view.removed(id);
    if view.contains(id) {
        let p = view.position(id);
        let last = view.owners.len() - 1;
        let moved = view.owners.last();
        assert(view.owners[p] == id);
        assert(view.owners[last] == moved);
        assert forall|q: int| 0 <= q < after.owners.len() implies {
            &&& (#[trigger] after.owners[q]) < after.sparse.len()
            &&& after.sparse[after.owners[q] as int] == Some(q as nat)
        } by {
            if q == p {
            } else {
                assert(view.owners[q] < view.sparse.len());
            }
        }
        assert forall|other: int|
            0 <= other < after.sparse.len() && (#[trigger] after.sparse[other]) is Some implies {
            &&& after.sparse[other]->0 < after.owners.len()
            &&& after.owners[after.sparse[other]->0 as int] == other
        } by {
            if other == moved {
            } else {
                assert(view.sparse[other] is Some);
            }
        }
        if view.coherent() {
            assert forall|c: nat, q: int|
                c < after.indices.len() && 0 <= q < after.dense.len() implies (
            #[trigger] after.lists(c, q)) == after.dense[q].supports(c) by {
                if q == p {
                    assert(view.lists(c, last) == view.dense[last].supports(c));
                } else {
                    assert(view.lists(c, q) == view.dense[q].supports(c));
                }
            }
        }
    }
}

/// Exchanging a registered object keeps the structure, and keeps the
/// capability indices exact if the new object supports what the old one did.
pub proof fn replaced_preserves<T: Object>(view: RegistryView<T>, id: nat, object: T)
    requires
        view.valid(),
    ensures
        view.replaced(id, object).valid(),
        view.coherent() && view.contains(id) && (forall|c: nat|
            object.supports(c) == view.dense[view.position(id)].supports(c))
            ==> view.replaced(id, object).coherent(),
{
    let after = view.replaced(id, object);
    if view.contains(id) {
        if view.coherent() && (forall|c: nat|
            object.supports(c) == view.dense[view.position(id)].supports(c)) {
            assert forall|c: nat, q: int|
                c < after.indices.len() && 0 <= q < after.dense.len() implies (
            #[trigger] after.lists(c, q)) == after.dense[q].supports(c) by {
                assert(view.lists(c, q) == view.dense[q].supports(c));
            }
        }
    }
}

/// A swap-remove on a sequence without duplicates takes out the element at
/// `i` and no other, and leaves no duplicates.
pub proof fn lemma_swap_removed_contains<A>(s: Seq<A>, i: int)
    requires
        0 <= i < s.len(),
        s.no_duplicates(),
    ensures
        swap_removed(s, i).no_duplicates(),
        forall|x: A| #[trigger] swap_removed(s, i).contains(x) <==> (s.contains(x) && x != s[i]),
{
    let r = swap_removed(s, i);
    let last = s.len() - 1;
    assert forall|x: A| #[trigger] r.contains(x) <==> (s.contains(x) && x != s[i]) by {
        if r.contains(x) {
            let j = choose|j: int| 0 <= j < r.len() && r[j] == x;
            if j == i {
                assert(s[last] == x);
            } else {
                assert(s[j] == x);
            }
        }
        if s.contains(x) && x != s[i] {
            let j = choose|j: int| 0 <= j < s.len() && s[j] == x;
            if j == last {
                assert(r[i] == x);
            } else {
                assert(r[j] == x);
            }
        }
    }
}

/// What an eviction pass leaves: the ids that resolve, each where the pass
/// left it, and none that does not resolve.
pub proof fn lemma_purged(index: Seq<nat>, sparse: Seq<Option<nat>>, from: nat)
    requires
        from <= index.len(),
        index.no_duplicates(),
        forall|i: int| 0 <= i < from ==> resolves(sparse, #[trigger] index[i]),
    ensures
        purged(index, sparse, from).no_duplicates(),
        purged(index, sparse, from).len() <= index.len(),
        forall|i: int|
            0 <= i < purged(index, sparse, from).len() ==> resolves(
                sparse,
                #[trigger] purged(index, sparse, from)[i],
            ),
        forall|id: nat| #[trigger]
            purged(index, sparse, from).contains(id) <==> (index.contains(id) && resolves(
                sparse,
                id,
            )),
    decreases index.len() - from,
{
    if from >= index.len() {
        assert forall|id: nat| #[trigger]
            index.contains(id) implies resolves(sparse, id) by {
            let i = choose|i: int| 0 <= i < index.len() && index[i] == id;
            assert(resolves(sparse, index[i]));
        }
    } else if resolves(sparse, index[from as int]) {
        lemma_purged(index, sparse, from + 1);
    } else {
        let next = swap_removed(index, from as int);
        lemma_swap_removed_contains(index, from as int);
        lemma_purged(next, sparse, from);
        assert forall|id: nat| #[trigger]
            purged(index, sparse, from).contains(id) <==> (index.contains(id) && resolves(
                sparse,
                id,
            )) by {
            assert(next.contains(id) <==> (index.contains(id) && id != index[from as int]));
        }
    }
}

/// A broadcast keeps the structure and keeps the capability indices exact.
pub proof fn delivered_preserves<T: Object>(view: RegistryView<T>, signal: T::Signal)
    requires
        view.valid(),
    ensures
        view.delivered(signal).valid(),
        view.coherent() && view.receptive(signal) ==> view.delivered(signal).coherent(),
{
    let after = view.delivered(signal);
    let c = T::signal_capability(signal);
    T::signals_are_declared(signal);
    let index = view.indices[c as int];
    assert(index.no_duplicates());
    lemma_purged(index, view.sparse, 0);
    assert forall|k: int, i: int|
        0 <= k < after.indices.len() && 0 <= i < after.indices[k].len() implies (
    #[trigger] after.indices[k][i]) < after.sparse.len() by {
        if k == c {
            assert(after.indices[k].contains(after.indices[k][i]));
            let id = after.indices[k][i];
            assert(index.contains(id));
            let j = choose|j: int| 0 <= j < index.len() && index[j] == id;
            assert(view.indices[c as int][j] < view.sparse.len());
        } else {
            assert(view.indices[k][i] < view.sparse.len());
        }
    }
    assert forall|k: int| 0 <= k < after.indices.len() implies (
    #[trigger] after.indices[k]).no_duplicates() by {
        if k != c {
            assert(view.indices[k].no_duplicates());
        }
    }
    if view.coherent() && view.receptive(signal) {
        assert forall|k: nat, p: int|
            k < after.indices.len() && 0 <= p < after.dense.len() implies (#[trigger] after.lists(
                k,
                p,
            )) == after.dense[p].supports(k) by {
            assert(view.lists(k, p) == view.dense[p].supports(k));
            assert(view.lists(c, p) == view.dense[p].supports(c));
            assert(resolves(view.sparse, view.owners[p]));
            if view.lists(c, p) {
                view.dense[p].capabilities_are_fixed(signal, k);
            }
        }
    }
}

/// An element is in a sequence with `last` pushed onto it if it is `last` or
/// was in the sequence before.
pub proof fn lemma_push_contains<A>(s: Seq<A>, last: A, x: A)
    ensures
        s.push(last).contains(x) <==> (s.contains(x) || x == last),
{
    if s.contains(x) {
        let i = choose|i: int| 0 <= i < s.len() && s[i] == x;
        assert(s.push(last)[i] == x);
    }
    if x == last {
        assert(s.push(last)[s.len() as int] == x);
    }
}

} // verus!
