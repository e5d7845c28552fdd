use stanza::lazy::Lazy;
use stanza::memoized::Memoized;

#[test]
fn lifecycle() {
    let mut lazy = Lazy::new(|| 42);
    assert_eq!(None, lazy.try_get());
    assert_eq!(42, *lazy.get());
    assert_eq!(Some(&42), lazy.try_get());
}

#[test]
fn tests_lifecycle() {
    let mut m = Memoized::new(|| 42);
    assert_eq!(None, m.try_get());
    assert_eq!(42, *m.get());
    assert_eq!(Some(&42), m.try_get());
}
