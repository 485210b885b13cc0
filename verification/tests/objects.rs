use handlers::system::{Pointer, Renderable, Test};
use handlers::text::{push_decimal, push_digits};
use handlers::{Handle, Registry};

fn decimal(n: i64) -> String {
    let mut text = String::new();
    push_decimal(&mut text, n);
    text
}

#[test]
fn decimal_notation_of_integers() {
    assert_eq!(decimal(0), "0");
    assert_eq!(decimal(7), "7");
    assert_eq!(decimal(10), "10");
    assert_eq!(decimal(15), "15");
    assert_eq!(decimal(-1), "-1");
    assert_eq!(decimal(-120), "-120");
    assert_eq!(decimal(i64::MAX), "9223372036854775807");
    assert_eq!(decimal(i64::MIN), "-9223372036854775808");
}

#[test]
fn digits_are_appended() {
    let mut text = String::from("n=");
    push_digits(&mut text, 1903);
    assert_eq!(text, "n=1903");
    push_digits(&mut text, u64::MAX);
    assert_eq!(text, "n=190318446744073709551615");
}

#[test]
fn render_shows_the_count() {
    assert_eq!(Test { n: 15 }.render(), "Rendering! 15");
    assert_eq!(Test { n: -3 }.render(), "Rendering! -3");
    assert_eq!(Test { n: 0 }.render(), "Rendering! 0");
}

#[test]
fn update_moves_the_count() {
    let mut test = Test { n: 15 };
    test.update(-10);
    assert_eq!(test, Test { n: 5 });
    test.update(20);
    assert_eq!(test, Test { n: 25 });
}

#[test]
fn on_input_counts_one() {
    let mut test = Test { n: 41 };
    test.on_input('x');
    assert_eq!(test.n, 42);
}

#[test]
fn pointer_slots() {
    let mut pointer = Pointer { x: 0, y: 0, hovers: 0 };
    pointer.on_click(3, 9);
    pointer.on_hover();
    assert_eq!(pointer, Pointer { x: 3, y: 9, hovers: 1 });
}

#[test]
fn handles_are_compared_by_id() {
    let mut registry: Registry<Test> = Registry::new();
    let a = registry.insert(Test { n: 1 });
    let b = registry.insert(Test { n: 2 });
    let mut other: Registry<Test> = Registry::new();
    let c = other.insert(Test { n: 3 });
    assert_eq!(a, c);
    assert_ne!(a, b);
    assert!(a < b);
    assert!(b > a);
    assert!(a <= c);
    assert_eq!(a.partial_cmp(&b), Some(std::cmp::Ordering::Less));
    assert_eq!(b.partial_cmp(&a), Some(std::cmp::Ordering::Greater));
    assert_eq!(a.partial_cmp(&c), Some(std::cmp::Ordering::Equal));
    assert_eq!(a.cmp(&b), std::cmp::Ordering::Less);
    let copy: Handle = a;
    assert_eq!(copy.id(), a.id());
}
