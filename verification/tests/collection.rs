use iv::collection::OrderedCollection;

fn sample() -> OrderedCollection<String> {
    OrderedCollection::from_vec(vec!["a".to_string(), "b".to_string(), "c".to_string()])
}

#[test]
fn collection_orders_by_insertion() {
    let c = sample();
    assert_eq!(c.len(), 3);
    let a = c.head().unwrap();
    let z = c.tail().unwrap();
    assert_eq!(c.get(a), Some(&"a".to_string()));
    assert_eq!(c.get(z), Some(&"c".to_string()));
    let b = c.next(a).unwrap();
    assert_eq!(c.get(b), Some(&"b".to_string()));
    assert_eq!(c.next(b), Some(z));
    assert_eq!(c.prev(z), Some(b));
    assert_eq!(c.prev(b), Some(a));
    assert_eq!(c.position(a), Some(0));
    assert_eq!(c.position(b), Some(1));
    assert_eq!(c.position(z), Some(2));
}

#[test]
fn collection_has_no_wraparound() {
    let c = sample();
    let a = c.head().unwrap();
    let z = c.tail().unwrap();
    assert_eq!(c.prev(a), None);
    assert_eq!(c.next(z), None);
}

#[test]
fn collection_next_prev_are_inverses() {
    let c = sample();
    let mut cur = c.head().unwrap();
    while let Some(nx) = c.next(cur) {
        assert_eq!(c.prev(nx), Some(cur));
        cur = nx;
    }
    let mut cur = c.tail().unwrap();
    while let Some(pv) = c.prev(cur) {
        assert_eq!(c.next(pv), Some(cur));
        cur = pv;
    }
}

#[test]
fn collection_remove_keeps_other_links() {
    let mut c = sample();
    let a = c.head().unwrap();
    let b = c.next(a).unwrap();
    let z = c.tail().unwrap();
    assert_eq!(c.remove(b), Some("b".to_string()));
    assert_eq!(c.len(), 2);
    // The other keys stay valid and are now neighbours.
    assert_eq!(c.get(a), Some(&"a".to_string()));
    assert_eq!(c.get(z), Some(&"c".to_string()));
    assert_eq!(c.next(a), Some(z));
    assert_eq!(c.prev(z), Some(a));
    // The removed key is answered with nothing, forever.
    assert_eq!(c.get(b), None);
    assert_eq!(c.next(b), None);
    assert_eq!(c.prev(b), None);
    assert_eq!(c.remove(b), None);
}

#[test]
fn collection_remove_at_the_boundaries() {
    let mut c = sample();
    let a = c.head().unwrap();
    assert_eq!(c.remove(a), Some("a".to_string()));
    let b = c.head().unwrap();
    assert_eq!(c.get(b), Some(&"b".to_string()));
    assert_eq!(c.prev(b), None);
    let z = c.tail().unwrap();
    assert_eq!(c.remove(z), Some("c".to_string()));
    assert_eq!(c.tail(), Some(b));
    assert_eq!(c.next(b), None);
    assert_eq!(c.remove(b), Some("b".to_string()));
    assert_eq!(c.len(), 0);
    assert_eq!(c.head(), None);
    assert_eq!(c.tail(), None);
}

#[test]
fn collection_never_reuses_a_key() {
    let mut c = OrderedCollection::from_vec(vec!["a".to_string(), "b".to_string()]);
    let a = c.head().unwrap();
    c.remove(a);
    let k = c.push_back("d".to_string());
    assert_ne!(k, a);
    assert_eq!(c.get(a), None);
    assert_eq!(c.get(k), Some(&"d".to_string()));
    assert_eq!(c.tail(), Some(k));
}

#[test]
fn collection_empty_behaves() {
    let c: OrderedCollection<String> = OrderedCollection::new();
    assert_eq!(c.len(), 0);
    assert_eq!(c.head(), None);
    assert_eq!(c.tail(), None);
}
