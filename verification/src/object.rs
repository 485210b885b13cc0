//! The contract between a registry and the objects it owns.
//!
//! A schema declares a fixed number of capabilities, numbered from zero, and a
//! set of signals, each belonging to exactly one capability. An object answers,
//! for every capability, whether it implements it, and carries the slots that
//! its capabilities' signals invoke.

use vstd::prelude::*;

verus! {

/// A value that a registry can own and dispatch signals to.
///
/// The schema is part of the object type: `Signal` enumerates the declared
/// signals with their arguments, `capabilities` counts the declared
/// capabilities, and `signal_capability` assigns every signal to the
/// capability that declares it.
///
/// The registry never inspects an object beyond this trait: it probes each
/// capability once, when the object is inserted, and afterwards invokes slots
/// through `probe_mut` on exactly the objects that it recorded.
pub trait Object: Sized {
    /// A declared signal together with its arguments.
    type Signal;

    /// The number of capabilities that the schema declares.
    spec fn capabilities() -> nat;

    /// The capability that declares `signal`.
    spec fn signal_capability(signal: Self::Signal) -> nat;

    /// Whether this object implements `capability`.
    spec fn supports(&self, capability: nat) -> bool;

    /// Whether the slot for `signal` may be invoked on this object in its
    /// current state.
    spec fn accepts(&self, signal: Self::Signal) -> bool;

    /// The object as its slot for `signal` leaves it.
    spec fn handled(&self, signal: Self::Signal) -> Self;

    /// Every signal belongs to a declared capability.
    proof fn signals_are_declared(signal: Self::Signal)
        ensures
            Self::signal_capability(signal) < Self::capabilities(),
    ;

    /// A slot never makes its object gain or lose a capability.
    proof fn capabilities_are_fixed(&self, signal: Self::Signal, capability: nat)
        requires
            self.supports(Self::signal_capability(signal)),
            self.accepts(signal),
        ensures
            self.handled(signal).supports(capability) == self.supports(capability),
    ;

    /// The number of declared capabilities.
    fn capability_count() -> (count: usize)
        ensures
            count == Self::capabilities(),
    ;

    /// The capability that declares `signal`.
    fn capability_of(signal: &Self::Signal) -> (capability: usize)
        ensures
            capability == Self::signal_capability(*signal),
    ;

    /// The object seen through `capability`, or nothing if it does not
    /// implement it.
    fn probe(&self, capability: usize) -> (found: Option<&Self>)
        ensures
            found == (if self.supports(capability as nat) {
                Some(self)
            } else {
                None
            }),
    ;

    /// As `probe`, for mutation: whatever is done through the returned
    /// reference is done to the object itself.
    fn probe_mut(&mut self, capability: usize) -> (found: Option<&mut Self>)
        ensures
            match found {
                Some(handler) => {
                    &&& old(self).supports(capability as nat)
                    &&& *handler == *old(self)
                    &&& *final(self) == *final(handler)
                },
                None => {
                    &&& !old(self).supports(capability as nat)
                    &&& *final(self) == *old(self)
                },
            },
    ;

    /// Invokes the slot that `signal` names.
    fn slot(&mut self, signal: &Self::Signal)
        requires
            old(self).supports(Self::signal_capability(*signal)),
            old(self).accepts(*signal),
        ensures
            *final(self) == old(self).handled(*signal),
    ;
}

} // verus!
