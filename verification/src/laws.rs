//! What holds of every registry, whatever has been done to it.
//!
//! A history is a sequence of operations. The laws below are stated for the
//! state that a history leaves, so they hold after any interleaving of
//! insertions, removals, broadcasts and writes through mutable references.

use vstd::prelude::*;
use crate::model::{
    delivered_preserves, inserted_preserves, removed_preserves, replaced_preserves, RegistryView,
};
use crate::object::Object;

verus! {

/// One operation on a registry.
pub enum Operation<T: Object> {
    /// An object is inserted.
    Insert(T),
    /// The object that a stable id names is removed, if there is one.
    Remove(nat),
    /// The object that a stable id names is overwritten through a mutable
    /// reference, if there is one.
    Replace(nat, T),
    /// A signal is broadcast.
    Broadcast(T::Signal),
}

impl<T: Object> RegistryView<T> {
    /// Whether `operation` may be applied: a broadcast needs every supporting
    /// object to accept the signal, and an overwrite must not change what
    /// the object supports.
    pub open spec fn admits(self, operation: Operation<T>) -> bool {
        match operation {
            Operation::Insert(_) => true,
            Operation::Remove(_) => true,
            Operation::Replace(id, object) => self.contains(id) ==> forall|c: nat|
                object.supports(c) == self.dense[self.position(id)].supports(c),
            Operation::Broadcast(signal) => self.receptive(signal),
        }
    }

    /// The state after `operation`.
    pub open spec fn after(self, operation: Operation<T>) -> Self {
        match operation {
            Operation::Insert(object) => self.inserted(object),
            Operation::Remove(id) => self.removed(id),
            Operation::Replace(id, object) => self.replaced(id, object),
            Operation::Broadcast(signal) => self.delivered(signal),
        }
    }

    /// The state after the operations of `history`, first to last.
    pub open spec fn after_all(self, history: Seq<Operation<T>>) -> Self
        decreases history.len(),
    {
        if history.len() == 0 {
            self
        } else {
            self.after_all(history.drop_last()).after(history.last())
        }
    }

    /// Whether every operation of `history` may be applied when its turn
    /// comes.
    pub open spec fn admits_all(self, history: Seq<Operation<T>>) -> bool
        decreases history.len(),
    {
        history.len() > 0 ==> {
            &&& self.admits_all(history.drop_last())
            &&& self.after_all(history.drop_last()).admits(history.last())
        }
    }

    /// The stable ids of the registered objects.
    pub open spec fn live(self) -> Set<nat> {
        Set::new(|id: nat| self.contains(id))
    }

    /// Whether `id` was allocated and its object has been removed.
    pub open spec fn retired(self, id: nat) -> bool {
        id < self.sparse.len() && self.sparse[id as int] is None
    }
}

/// The empty registry has an intact structure and exact capability indices.
pub proof fn empty_is_valid<T: Object>()
    ensures
        RegistryView::<T>::empty().valid(),
        RegistryView::<T>::empty().coherent(),
{
}

/// Every operation keeps the structure intact, and every admitted operation
/// keeps the capability indices exact.
pub proof fn operation_preserves<T: Object>(view: RegistryView<T>, operation: Operation<T>)
    requires
        view.valid(),
    ensures
        view.after(operation).valid(),
        view.coherent() && view.admits(operation) ==> view.after(operation).coherent(),
{
    match operation {
        Operation::Insert(object) => inserted_preserves(view, object),
        Operation::Remove(id) => removed_preserves(view, id),
        Operation::Replace(id, object) => replaced_preserves(view, id, object),
        Operation::Broadcast(signal) => delivered_preserves(view, signal),
    }
}

/// No history breaks the structure, and no admitted history makes a
/// capability index inexact.
pub proof fn history_preserves<T: Object>(view: RegistryView<T>, history: Seq<Operation<T>>)
    requires
        view.valid(),
    ensures
        view.after_all(history).valid(),
        view.coherent() && view.admits_all(history) ==> view.after_all(history).coherent(),
    decreases history.len(),
{
    if history.len() > 0 {
        history_preserves(view, history.drop_last());
        operation_preserves(view.after_all(history.drop_last()), history.last());
    }
}

/// A lookup right after an insertion, with the handle that the insertion
/// returned, finds the inserted object unchanged.
pub proof fn insert_then_get<T: Object>(view: RegistryView<T>, object: T)
    requires
        view.valid(),
    ensures
        view.inserted(object).contains(view.next_id()),
        view.inserted(object).get(view.next_id()) == Some(object),
{
}

/// An insertion leaves every object that was registered where it was, under
/// the handle it had.
pub proof fn insert_keeps_others<T: Object>(view: RegistryView<T>, object: T, id: nat)
    requires
        view.valid(),
        view.contains(id),
    ensures
        view.inserted(object).get(id) == view.get(id),
{
}

/// Once an object has been removed, its handle finds nothing, whatever is
/// done to the registry afterwards: lookups report nothing and a second
/// removal changes nothing.
pub proof fn removed_stays_removed<T: Object>(
    view: RegistryView<T>,
    id: nat,
    history: Seq<Operation<T>>,
)
    requires
        view.valid(),
        view.contains(id),
    ensures
        view.removed(id).after_all(history).retired(id),
        !view.removed(id).after_all(history).contains(id),
        view.removed(id).after_all(history).get(id) is None,
        view.removed(id).after_all(history).removed(id) == view.removed(id).after_all(history),
        forall|object: T|
            view.removed(id).after_all(history).replaced(id, object) == view.removed(
                id,
            ).after_all(history),
    decreases history.len(),
{
    removed_preserves(view, id);
    if history.len() > 0 {
        let earlier = view.removed(id).after_all(history.drop_last());
        removed_stays_removed(view, id, history.drop_last());
        history_preserves(view.removed(id), history.drop_last());
        retired_stays_retired(earlier, id, history.last());
    }
}

/// No operation brings a retired id back.
pub proof fn retired_stays_retired<T: Object>(
    view: RegistryView<T>,
    id: nat,
    operation: Operation<T>,
)
    requires
        view.valid(),
        view.retired(id),
    ensures
        view.after(operation).retired(id),
{
    match operation {
        Operation::Remove(other) => {
            if view.contains(other) {
                let moved = view.owners.last();
                assert(view.sparse[view.owners[view.owners.len() - 1] as int] is Some);
            }
        },
        _ => {},
    }
}

/// A removal takes out the object it returns and no other: every other
/// handle finds the object it found before.
pub proof fn remove_keeps_others<T: Object>(view: RegistryView<T>, id: nat, other: nat)
    requires
        view.valid(),
        other != id,
    ensures
        view.removed(id).get(other) == view.get(other),
{
    if view.contains(id) && view.contains(other) {
        let p = view.position(id);
        let q = view.position(other);
        let last = view.owners.len() - 1;
        assert(view.owners[p] == id);
        assert(view.owners[q] == other);
        assert(view.owners[last] == view.owners.last());
    }
}

/// The dense store holds the registered objects and nothing else: as many
/// objects as there are handles that have not been removed, each of them
/// once, at the position that its sparse entry gives.
pub proof fn dense_holds_the_live<T: Object>(view: RegistryView<T>)
    requires
        view.valid(),
    ensures
        view.live().finite(),
        view.live().len() == view.dense.len(),
        view.owners.no_duplicates(),
        view.owners.to_set() == view.live(),
        forall|p: int|
            0 <= p < view.dense.len() ==> #[trigger] view.get(view.owners[p]) == Some(
                view.dense[p],
            ),
        forall|id: nat|
            view.contains(id) ==> 0 <= #[trigger] view.position(id) < view.dense.len()
                && view.owners[view.position(id)] == id,
{
    assert forall|p: int, q: int|
        0 <= p < view.owners.len() && 0 <= q < view.owners.len() && p != q implies view.owners[p]
        != view.owners[q] by {
        assert(view.sparse[view.owners[p] as int] == Some(p as nat));
        assert(view.sparse[view.owners[q] as int] == Some(q as nat));
    }
    assert forall|id: nat| view.owners.to_set().contains(id) <==> view.live().contains(id) by {
        if view.owners.to_set().contains(id) {
            let p = choose|p: int| 0 <= p < view.owners.len() && view.owners[p] == id;
            assert(view.sparse[view.owners[p] as int] == Some(p as nat));
        }
        if view.contains(id) {
            assert(view.sparse[id as int] is Some);
            assert(view.owners[view.position(id)] == id);
        }
    }
    assert(view.owners.to_set() =~= view.live());
    view.owners.unique_seq_to_set();
    assert forall|p: int| 0 <= p < view.dense.len() implies #[trigger] view.get(view.owners[p])
        == Some(view.dense[p]) by {
        assert(view.sparse[view.owners[p] as int] == Some(p as nat));
    }
    assert forall|id: nat| view.contains(id) implies 0 <= #[trigger] view.position(id)
        < view.dense.len() && view.owners[view.position(id)] == id by {
        assert(view.sparse[id as int] is Some);
    }
}

/// A broadcast invokes the slot once on every registered object that
/// supports the signal's capability and leaves every other object as it
/// is; it registers and removes nothing.
pub proof fn broadcast_reaches_supporters<T: Object>(view: RegistryView<T>, signal: T::Signal)
    requires
        view.valid(),
        view.coherent(),
    ensures
        view.delivered(signal).dense.len() == view.dense.len(),
        view.delivered(signal).owners == view.owners,
        view.delivered(signal).sparse == view.sparse,
        forall|p: int|
            0 <= p < view.dense.len() ==> #[trigger] view.delivered(signal).dense[p] == (
            if view.dense[p].supports(T::signal_capability(signal)) {
                view.dense[p].handled(signal)
            } else {
                view.dense[p]
            }),
{
    T::signals_are_declared(signal);
    let c = T::signal_capability(signal);
    assert forall|p: int| 0 <= p < view.dense.len() implies #[trigger] view.delivered(
        signal,
    ).dense[p] == (if view.dense[p].supports(c) {
        view.dense[p].handled(signal)
    } else {
        view.dense[p]
    }) by {
        assert(view.lists(c, p) == view.dense[p].supports(c));
    }
}

/// After a broadcast the signal's capability index lists registered objects
/// only: exactly those that it listed before and that are still registered.
pub proof fn broadcast_evicts_the_stale<T: Object>(view: RegistryView<T>, signal: T::Signal)
    requires
        view.valid(),
    ensures
        forall|id: nat| #[trigger]
            view.delivered(signal).indices[T::signal_capability(signal) as int].contains(id) <==> (
            view.indices[T::signal_capability(signal) as int].contains(id) && view.contains(id)),
        forall|c: int|
            0 <= c < view.indices.len() && c != T::signal_capability(signal)
                ==> #[trigger] view.delivered(signal).indices[c] == view.indices[c],
{
    T::signals_are_declared(signal);
    let c = T::signal_capability(signal);
    assert(view.indices[c as int].no_duplicates());
    crate::model::lemma_purged(view.indices[c as int], view.sparse, 0);
}

/// Removing an object right after inserting it hands back the inserted
/// object, and leaves the dense store and the back-array as they were
/// before the insertion.
pub proof fn insert_then_remove<T: Object>(view: RegistryView<T>, object: T)
    requires
        view.valid(),
    ensures
        view.inserted(object).get(view.next_id()) == Some(object),
        view.inserted(object).removed(view.next_id()).dense == view.dense,
        view.inserted(object).removed(view.next_id()).owners == view.owners,
        view.inserted(object).removed(view.next_id()).sparse == view.sparse.push(None),
{
    let between = view.inserted(object);
    let after = between.removed(view.next_id());
    assert(after.dense =~= view.dense);
    assert(after.owners =~= view.owners);
    assert(after.sparse =~= view.sparse.push(None));
}

/// A handle that names no registered object finds nothing, and a removal or
/// a write through it leaves the registry as it is, however often it is
/// tried.
pub proof fn absent_handle_is_inert<T: Object>(view: RegistryView<T>, id: nat)
    requires
        !view.contains(id),
    ensures
        view.get(id) is None,
        view.removed(id) == view,
        forall|object: T| view.replaced(id, object) == view,
        view.removed(id).removed(id) == view,
        !view.removed(id).contains(id),
{
}

} // verus!
