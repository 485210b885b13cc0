//! A small schema and objects for it.
//!
//! The schema declares two capabilities. A mouse handler takes the signals
//! `click`, with a position, and `hover`; an input handler takes the signal
//! `input`, with a character. `Test` is an input handler that counts what it
//! is given, `Pointer` is a mouse handler, and a `Widget` is put together
//! from either, both or neither of them.

use vstd::prelude::*;
use vstd::string::StringExecFns;
use crate::object::Object;
use crate::registry::Registry;
use crate::text::{decimal, push_decimal};

verus! {

/// The capability of objects that take `click` and `hover`.
pub const MOUSE_HANDLER: usize = 0;

/// The capability of objects that take `input`.
pub const INPUT_HANDLER: usize = 1;

/// The signals of the schema.
#[derive(Clone, Copy, Debug, PartialEq, Eq, Structural)]
pub enum Signal {
    /// The mouse was clicked at a position; invokes `on_click`.
    Click { x: u64, y: u64 },
    /// The mouse hovers; invokes `on_hover`.
    Hover,
    /// A character was typed; invokes `on_input`.
    Input(char),
}

/// The capability that declares `signal`.
pub open spec fn capability(signal: Signal) -> nat {
    match signal {
        Signal::Click { .. } => MOUSE_HANDLER as nat,
        Signal::Hover => MOUSE_HANDLER as nat,
        Signal::Input(_) => INPUT_HANDLER as nat,
    }
}

/// The capability that declares `signal`.
pub fn capability_of(signal: &Signal) -> (found: usize)
    ensures
        found == capability(*signal),
{
    match signal {
        Signal::Click { .. } => MOUSE_HANDLER,
        Signal::Hover => MOUSE_HANDLER,
        Signal::Input(_) => INPUT_HANDLER,
    }
}

/// Something that can be shown as a line of text and moved by an amount.
pub trait Renderable: Sized {
    /// The line that shows the object.
    spec fn rendering(&self) -> Seq<char>;

    /// Whether the object can be moved by `x`.
    spec fn updatable(&self, x: i64) -> bool;

    /// The object moved by `x`.
    spec fn updated(&self, x: i64) -> Self;

    /// The line that shows the object.
    fn render(&self) -> (line: String)
        ensures
            line@ == self.rendering(),
    ;

    /// Moves the object by `x`.
    fn update(&mut self, x: i64)
        requires
            old(self).updatable(x),
        ensures
            *final(self) == old(self).updated(x),
    ;
}

/// An input handler that counts the characters it is given, starting from
/// `n`.
#[derive(Debug, PartialEq, Eq, Structural)]
pub struct Test {
    pub n: i64,
}

impl Test {
    /// The slot of `input`: counts one character.
    pub fn on_input(&mut self, input: char)
        requires
            old(self).n < i64::MAX,
        ensures
            final(self).n == old(self).n + 1,
    {
        self.n = self.n + 1;
    }
}

impl Object for Test {
    type Signal = Signal;

    open spec fn capabilities() -> nat {
        2
    }

    open spec fn signal_capability(signal: Signal) -> nat {
        capability(signal)
    }

    open spec fn supports(&self, capability: nat) -> bool {
        capability == INPUT_HANDLER
    }

    open spec fn accepts(&self, signal: Signal) -> bool {
        signal is Input ==> self.n < i64::MAX
    }

    open spec fn handled(&self, signal: Signal) -> Test {
        if signal is Input {
            Test { n: (self.n + 1) as i64 }
        } else {
            *self
        }
    }

    proof fn signals_are_declared(signal: Signal) {
    }

    proof fn capabilities_are_fixed(&self, signal: Signal, capability: nat) {
    }

    fn capability_count() -> (count: usize) {
        2
    }

    fn capability_of(signal: &Signal) -> (capability: usize) {
        capability_of(signal)
    }

    fn probe(&self, capability: usize) -> (found: Option<&Test>) {
        if capability == INPUT_HANDLER {
            Some(self)
        } else {
            None
        }
    }

    fn probe_mut(&mut self, capability: usize) -> (found: Option<&mut Test>) {
        if capability == INPUT_HANDLER {
            Some(self)
        } else {
            None
        }
    }

    fn slot(&mut self, signal: &Signal) {
        match signal {
            Signal::Input(input) => self.on_input(*input),
            _ => {},
        }
    }
}

impl Renderable for Test {
    open spec fn rendering(&self) -> Seq<char> {
        "Rendering! "@ + decimal(self.n as int)
    }

    open spec fn updatable(&self, x: i64) -> bool {
        i64::MIN <= self.n + x <= i64::MAX
    }

    open spec fn updated(&self, x: i64) -> Test {
        Test { n: (self.n + x) as i64 }
    }

    fn render(&self) -> (line: String) {
        let mut line = String::from_str("Rendering! ");
        push_decimal(&mut line, self.n);
        line
    }

    fn update(&mut self, x: i64) {
        self.n = self.n + x;
    }
}

/// A mouse handler that remembers where the last click was and how often the
/// mouse has hovered.
#[derive(Debug, PartialEq, Eq, Structural)]
pub struct Pointer {
    pub x: u64,
    pub y: u64,
    pub hovers: u64,
}

impl Pointer {
    /// The slot of `click`: remembers the position.
    pub fn on_click(&mut self, x: u64, y: u64)
        ensures
            *final(self) == (Pointer { x, y, hovers: old(self).hovers }),
    {
        self.x = x;
        self.y = y;
    }

    /// The slot of `hover`: counts one hover.
    pub fn on_hover(&mut self)
        requires
            old(self).hovers < u64::MAX,
        ensures
            *final(self) == (Pointer {
                x: old(self).x,
                y: old(self).y,
                hovers: (old(self).hovers + 1) as u64,
            }),
    {
        self.hovers = self.hovers + 1;
    }
}

/// An object with an optional mouse part and an optional input part. It
/// supports the capability of each part that it has.
#[derive(Debug, PartialEq, Eq, Structural)]
pub struct Widget {
    pub pointer: Option<Pointer>,
    pub counter: Option<Test>,
}

impl Object for Widget {
    type Signal = Signal;

    open spec fn capabilities() -> nat {
        2
    }

    open spec fn signal_capability(signal: Signal) -> nat {
        capability(signal)
    }

    open spec fn supports(&self, capability: nat) -> bool {
        ||| capability == MOUSE_HANDLER && self.pointer is Some
        ||| capability == INPUT_HANDLER && self.counter is Some
    }

    open spec fn accepts(&self, signal: Signal) -> bool {
        match signal {
            Signal::Click { .. } => true,
            Signal::Hover => self.pointer matches Some(pointer) ==> pointer.hovers < u64::MAX,
            Signal::Input(_) => self.counter matches Some(counter) ==> counter.n < i64::MAX,
        }
    }

    open spec fn handled(&self, signal: Signal) -> Widget {
        match signal {
            Signal::Click { x, y } => Widget {
                pointer: match self.pointer {
                    Some(pointer) => Some(Pointer { x, y, hovers: pointer.hovers }),
                    None => None,
                },
                counter: self.counter,
            },
            Signal::Hover => Widget {
                pointer: match self.pointer {
                    Some(pointer) => Some(
                        Pointer { x: pointer.x, y: pointer.y, hovers: (pointer.hovers + 1) as u64 },
                    ),
                    None => None,
                },
                counter: self.counter,
            },
            Signal::Input(_) => Widget {
                pointer: self.pointer,
                counter: match self.counter {
                    Some(counter) => Some(Test { n: (counter.n + 1) as i64 }),
                    None => None,
                },
            },
        }
    }

    proof fn signals_are_declared(signal: Signal) {
    }

    proof fn capabilities_are_fixed(&self, signal: Signal, capability: nat) {
    }

    fn capability_count() -> (count: usize) {
        2
    }

    fn capability_of(signal: &Signal) -> (capability: usize) {
        capability_of(signal)
    }

    fn probe(&self, capability: usize) -> (found: Option<&Widget>) {
        if (capability == MOUSE_HANDLER && self.pointer.is_some()) || (capability == INPUT_HANDLER
            && self.counter.is_some()) {
            Some(self)
        } else {
            None
        }
    }

    fn probe_mut(&mut self, capability: usize) -> (found: Option<&mut Widget>) {
        if (capability == MOUSE_HANDLER && self.pointer.is_some()) || (capability == INPUT_HANDLER
            && self.counter.is_some()) {
            Some(self)
        } else {
            None
        }
    }

    fn slot(&mut self, signal: &Signal) {
        match signal {
            Signal::Click { x, y } => match &mut self.pointer {
                Some(pointer) => pointer.on_click(*x, *y),
                None => {},
            },
            Signal::Hover => match &mut self.pointer {
                Some(pointer) => pointer.on_hover(),
                None => {},
            },
            Signal::Input(input) => match &mut self.counter {
                Some(counter) => counter.on_input(*input),
                None => {},
            },
        }
    }
}

impl<T: Object<Signal = Signal>> Registry<T> {
    /// Broadcasts `click` with its position.
    pub fn click(&mut self, x: u64, y: u64)
        requires
            old(self).wf(),
            old(self)@.coherent(),
            old(self)@.receptive(Signal::Click { x, y }),
        ensures
            final(self).wf(),
            final(self)@.coherent(),
            final(self)@ == old(self)@.delivered(Signal::Click { x, y }),
    {
        self.broadcast(&Signal::Click { x, y });
    }

    /// Broadcasts `hover`.
    pub fn hover(&mut self)
        requires
            old(self).wf(),
            old(self)@.coherent(),
            old(self)@.receptive(Signal::Hover),
        ensures
            final(self).wf(),
            final(self)@.coherent(),
            final(self)@ == old(self)@.delivered(Signal::Hover),
    {
        self.broadcast(&Signal::Hover);
    }

    /// Broadcasts `input` with its character.
    pub fn input(&mut self, input: char)
        requires
            old(self).wf(),
            old(self)@.coherent(),
            old(self)@.receptive(Signal::Input(input)),
        ensures
            final(self).wf(),
            final(self)@.coherent(),
            final(self)@ == old(self)@.delivered(Signal::Input(input)),
    {
        self.broadcast(&Signal::Input(input));
    }
}

} // verus!
