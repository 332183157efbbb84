use kce::crdt::CrdtPheromones;

fn id(b: u8) -> [u8; 16] {
    let mut x = [0u8; 16];
    x[0] = b;
    x
}

#[test]
fn later_write_wins_on_update() {
    let mut c = CrdtPheromones::new();
    c.update(1, 2, 0.5f64.to_bits(), 10, id(1));
    assert_eq!(c.get(1, 2), Some(0.5f64.to_bits()));
    c.update(1, 2, 0.9f64.to_bits(), 5, id(9)); // older: ignored
    assert_eq!(c.get(1, 2), Some(0.5f64.to_bits()));
    c.update(1, 2, 0.7f64.to_bits(), 10, id(2)); // same time, greater id: wins
    assert_eq!(c.get(1, 2), Some(0.7f64.to_bits()));
    c.update(1, 2, 0.2f64.to_bits(), 10, id(0)); // same time, smaller id: ignored
    assert_eq!(c.get(1, 2), Some(0.7f64.to_bits()));
    assert_eq!(c.len(), 1);
}

#[test]
fn merge_is_order_independent() {
    let mut r1 = CrdtPheromones::new();
    r1.update(1, 1, 100, 3, id(1));
    r1.update(2, 2, 200, 7, id(1));
    let mut r2 = CrdtPheromones::new();
    r2.update(1, 1, 111, 4, id(2));
    r2.update(3, 3, 300, 1, id(2));
    let mut x = CrdtPheromones::new();
    x.merge(&r1);
    x.merge(&r2);
    let mut y = CrdtPheromones::new();
    y.merge(&r2);
    y.merge(&r1);
    for (f, t) in [(1, 1), (2, 2), (3, 3), (9, 9)] {
        assert_eq!(x.get(f, t), y.get(f, t));
    }
    assert_eq!(x.get(1, 1), Some(111));
    assert_eq!(x.get(2, 2), Some(200));
    assert_eq!(y.get(3, 3), Some(300));
    assert_eq!(x.get(9, 9), None);
    assert_eq!(x.len(), 3);
    // Merging again changes nothing.
    let before: Vec<_> = [(1, 1), (2, 2), (3, 3)].iter().map(|(f, t)| x.get(*f, *t)).collect();
    x.merge(&r1);
    x.merge(&r2);
    let after: Vec<_> = [(1, 1), (2, 2), (3, 3)].iter().map(|(f, t)| x.get(*f, *t)).collect();
    assert_eq!(before, after);
}
