use handlers::system::{Pointer, Signal, Test, Widget, INPUT_HANDLER, MOUSE_HANDLER};
use handlers::{Handle, Object, Registry};

fn counter(n: i64) -> Widget {
    Widget { pointer: None, counter: Some(Test { n }) }
}

fn pointer(x: u64, y: u64) -> Widget {
    Widget { pointer: Some(Pointer { x, y, hovers: 0 }), counter: None }
}

fn both(n: i64) -> Widget {
    Widget { pointer: Some(Pointer { x: 0, y: 0, hovers: 0 }), counter: Some(Test { n }) }
}

fn plain() -> Widget {
    Widget { pointer: None, counter: None }
}

fn listed(registry: &Registry<Widget>, capability: usize) -> Vec<Handle> {
    registry.index(capability).unwrap().to_vec()
}

#[test]
fn input_reaches_input_handlers_only() {
    let mut registry: Registry<Widget> = Registry::new();
    let a = registry.insert(counter(10));
    let b = registry.insert(plain());
    let c = registry.insert(counter(20));
    assert_eq!(listed(&registry, INPUT_HANDLER), vec![a, c]);
    registry.broadcast(&Signal::Input('x'));
    assert_eq!(registry.get(a), Some(&counter(11)));
    assert_eq!(registry.get(b), Some(&plain()));
    assert_eq!(registry.get(c), Some(&counter(21)));
    assert_eq!(listed(&registry, INPUT_HANDLER), vec![a, c]);
}

#[test]
fn broadcast_after_removal_evicts_the_stale_entry() {
    let mut registry: Registry<Widget> = Registry::new();
    let a = registry.insert(counter(10));
    assert_eq!(listed(&registry, INPUT_HANDLER), vec![a]);
    let removed = registry.remove(a);
    assert_eq!(removed, Some(counter(10)));
    assert_eq!(listed(&registry, INPUT_HANDLER), vec![a]);
    registry.broadcast(&Signal::Input('x'));
    assert_eq!(listed(&registry, INPUT_HANDLER), Vec::<Handle>::new());
    assert_eq!(removed, Some(counter(10)));
    assert!(registry.is_empty());
}

#[test]
fn each_supporter_is_reached_once_whatever_came_before() {
    let mut registry: Registry<Widget> = Registry::new();
    let a = registry.insert(counter(0));
    let b = registry.insert(pointer(1, 1));
    let c = registry.insert(both(100));
    let d = registry.insert(counter(200));
    let e = registry.insert(plain());
    registry.broadcast(&Signal::Input('1'));
    registry.remove(a);
    let f = registry.insert(both(300));
    registry.remove(d);
    registry.broadcast(&Signal::Hover);
    let g = registry.insert(counter(400));
    registry.remove(e);

    registry.broadcast(&Signal::Input('2'));
    assert_eq!(registry.len(), 4);
    assert_eq!(
        registry.get(b),
        Some(&Widget { pointer: Some(Pointer { x: 1, y: 1, hovers: 1 }), counter: None })
    );
    assert_eq!(
        registry.get(c),
        Some(&Widget {
            pointer: Some(Pointer { x: 0, y: 0, hovers: 1 }),
            counter: Some(Test { n: 102 }),
        })
    );
    assert_eq!(
        registry.get(f),
        Some(&Widget {
            pointer: Some(Pointer { x: 0, y: 0, hovers: 1 }),
            counter: Some(Test { n: 301 }),
        })
    );
    assert_eq!(registry.get(g), Some(&counter(401)));

    registry.broadcast(&Signal::Click { x: 8, y: 9 });
    assert_eq!(
        registry.get(b),
        Some(&Widget { pointer: Some(Pointer { x: 8, y: 9, hovers: 1 }), counter: None })
    );
    assert_eq!(
        registry.get(c),
        Some(&Widget {
            pointer: Some(Pointer { x: 8, y: 9, hovers: 1 }),
            counter: Some(Test { n: 102 }),
        })
    );
    assert_eq!(registry.get(g), Some(&counter(401)));
}

#[test]
fn eviction_swaps_the_last_entry_into_the_gap() {
    let mut registry: Registry<Widget> = Registry::new();
    let a = registry.insert(counter(1));
    let b = registry.insert(counter(2));
    let c = registry.insert(counter(3));
    let d = registry.insert(counter(4));
    registry.remove(a);
    registry.remove(c);
    assert_eq!(listed(&registry, INPUT_HANDLER), vec![a, b, c, d]);
    registry.broadcast(&Signal::Input('x'));
    assert_eq!(listed(&registry, INPUT_HANDLER), vec![d, b]);
    assert_eq!(registry.get(b), Some(&counter(3)));
    assert_eq!(registry.get(d), Some(&counter(5)));
}

#[test]
fn eviction_checks_the_entry_that_was_swapped_in() {
    let mut registry: Registry<Widget> = Registry::new();
    let a = registry.insert(counter(1));
    let b = registry.insert(counter(2));
    let c = registry.insert(counter(3));
    registry.remove(a);
    registry.remove(c);
    registry.broadcast(&Signal::Input('x'));
    assert_eq!(listed(&registry, INPUT_HANDLER), vec![b]);
    assert_eq!(registry.get(b), Some(&counter(3)));
}

#[test]
fn broadcast_leaves_other_indices_alone() {
    let mut registry: Registry<Widget> = Registry::new();
    let a = registry.insert(both(1));
    let b = registry.insert(both(2));
    registry.remove(a);
    registry.broadcast(&Signal::Input('x'));
    assert_eq!(listed(&registry, INPUT_HANDLER), vec![b]);
    assert_eq!(listed(&registry, MOUSE_HANDLER), vec![a, b]);
    registry.broadcast(&Signal::Hover);
    assert_eq!(listed(&registry, MOUSE_HANDLER), vec![b]);
}

#[test]
fn broadcast_on_empty_registry_does_nothing() {
    let mut registry: Registry<Widget> = Registry::new();
    registry.broadcast(&Signal::Hover);
    registry.broadcast(&Signal::Input('x'));
    registry.broadcast(&Signal::Click { x: 1, y: 2 });
    assert!(registry.is_empty());
}

#[test]
fn signal_methods_broadcast_their_signal() {
    let mut registry: Registry<Widget> = Registry::new();
    let a = registry.insert(both(5));
    registry.click(3, 4);
    registry.hover();
    registry.hover();
    registry.input('q');
    assert_eq!(
        registry.get(a),
        Some(&Widget {
            pointer: Some(Pointer { x: 3, y: 4, hovers: 2 }),
            counter: Some(Test { n: 6 }),
        })
    );
}

#[test]
fn registry_of_counters_runs_a_session() {
    let mut system: Registry<Test> = Registry::new();
    let first = system.insert(Test { n: 15 });
    system.input('H');
    system.input('e');
    let second = system.insert(Test { n: 20 });
    system.input('l');
    system.hover();
    system.input('l');
    assert_eq!(system.get(first), Some(&Test { n: 19 }));
    assert_eq!(system.get(second), Some(&Test { n: 22 }));
    let object = system.remove(first).unwrap();
    assert_eq!(object, Test { n: 19 });
    system.input('o');
    system.input('!');
    let third = system.insert(Test { n: 25 });
    assert_eq!(system.get(second), Some(&Test { n: 24 }));
    assert_eq!(system.get(third), Some(&Test { n: 25 }));
    assert_eq!(system.len(), 2);
    assert_eq!(system.index(INPUT_HANDLER).unwrap().to_vec(), vec![second, third]);
    assert_eq!(system.index(MOUSE_HANDLER).unwrap().len(), 0);
}

#[test]
fn probe_tells_what_an_object_supports() {
    let c = counter(1);
    let p = pointer(1, 2);
    let n = plain();
    assert!(c.probe(INPUT_HANDLER).is_some());
    assert!(c.probe(MOUSE_HANDLER).is_none());
    assert!(p.probe(MOUSE_HANDLER).is_some());
    assert!(p.probe(INPUT_HANDLER).is_none());
    assert!(n.probe(MOUSE_HANDLER).is_none());
    assert!(n.probe(INPUT_HANDLER).is_none());
    assert!(n.probe(2).is_none());
    let t = Test { n: 0 };
    assert!(t.probe(INPUT_HANDLER).is_some());
    assert!(t.probe(MOUSE_HANDLER).is_none());
}

#[test]
fn probe_mut_leads_to_the_slot() {
    let mut w = both(1);
    w.probe_mut(INPUT_HANDLER).unwrap().slot(&Signal::Input('a'));
    w.probe_mut(MOUSE_HANDLER).unwrap().slot(&Signal::Click { x: 5, y: 6 });
    assert_eq!(
        w,
        Widget { pointer: Some(Pointer { x: 5, y: 6, hovers: 0 }), counter: Some(Test { n: 2 }) }
    );
    let mut n = plain();
    assert!(n.probe_mut(INPUT_HANDLER).is_none());
    assert!(n.probe_mut(MOUSE_HANDLER).is_none());
}

#[test]
fn schema_assigns_signals_to_capabilities() {
    assert_eq!(<Widget as Object>::capability_count(), 2);
    assert_eq!(<Test as Object>::capability_count(), 2);
    assert_eq!(<Widget as Object>::capability_of(&Signal::Click { x: 0, y: 0 }), MOUSE_HANDLER);
    assert_eq!(<Widget as Object>::capability_of(&Signal::Hover), MOUSE_HANDLER);
    assert_eq!(<Widget as Object>::capability_of(&Signal::Input('a')), INPUT_HANDLER);
    assert_eq!(handlers::system::capability_of(&Signal::Input('a')), 1);
    assert_eq!(handlers::system::capability_of(&Signal::Hover), 0);
}
