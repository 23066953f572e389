use gnet::game::Cell;
use gnet::gameloop::{TimeDelta, Timer};
use gnet::grid::{Active, Cells, CellsInner};

#[test]
fn timer_rates() {
    assert_eq!(Timer::new(1, 0).delta(), TimeDelta(1_000_000_000));
    assert_eq!(Timer::new(60, 0).delta(), TimeDelta(16_666_666));
    assert_eq!(Timer::new(3, 0).delta(), TimeDelta(333_333_333));
    assert_eq!(Timer::new(0, 0).delta(), TimeDelta(u64::MAX as u128 * 1_000_000_000));
}

#[test]
fn timer_accumulates_and_ticks() {
    let mut t = Timer::new(10, 1_000);
    assert!(!t.tick());
    t.update(1_000 + 250_000_000);
    assert!(!t.has_ticked());
    assert!(t.tick());
    assert!(t.has_ticked());
    assert!(t.tick());
    assert!(!t.tick());
    assert_eq!(t.accumulated(), TimeDelta(50_000_000));
    t.update(1_000 + 250_000_000);
    assert!(!t.has_ticked());
    assert_eq!(t.accumulated(), TimeDelta(50_000_000));
    // a clock reading from before the last update adds nothing
    t.update(5);
    assert_eq!(t.accumulated(), TimeDelta(50_000_000));
    assert_eq!(t.target_ticks(), 10);
}

#[test]
fn inner_indexing() {
    let mut g = CellsInner::new(3, 4);
    assert_eq!(g.cells().len(), 12);
    assert_eq!(g.cell_index(2, 1), Some(9));
    assert_eq!(g.cell_index(u32::MAX, 2), None);
    assert_eq!(g.cell_at(2, 3), Some(Cell::Empty));
    assert_eq!(g.cell_at(3, 0), None);
    assert_eq!(g.set_at(1, 1, Cell::Stone), Some(()));
    assert_eq!(g.cell_at(1, 1), Some(Cell::Stone));
    assert_eq!(g.cells()[5], Cell::Stone);
    assert_eq!(g.set_at(5, 5, Cell::Stone), None);
}

#[test]
fn neighborhood_order_and_edges() {
    let mut g = CellsInner::new(3, 3);
    // (x, y) sits at 3 * x + y
    g.set_at(0, 2, Cell::Stone); // north-west of (1, 1)
    g.set_at(2, 0, Cell::Stone); // south-east of (1, 1)
    let n = g.neighborhood(1, 1).unwrap();
    assert_eq!(n[0], Cell::Stone);
    assert_eq!(n[8], Cell::Stone);
    assert_eq!(n[4], Cell::Empty);
    assert!(g.neighborhood(2, 1).is_none());
    assert!(g.neighborhood(0, 0).is_none());
}

#[test]
fn double_buffer_step() {
    let mut c = Cells::new(3, 3);
    assert_eq!(c.current().len(), 9);
    c.set_at(0, 0, Cell::Stone).unwrap();
    // the written buffer is not the one read
    assert!(c.current().iter().all(|x| *x == Cell::Empty));
    let n = c.neighborhood(1, 1).unwrap();
    assert_eq!(n.a[6], Cell::Stone);
    assert_eq!(n.b[6], Cell::Empty);
    c.advance();
    let cur = c.current();
    assert_eq!(cur[0], Cell::Stone);
    assert_eq!(cur[4], Cell::Stone);
    assert_eq!(cur.iter().filter(|x| **x == Cell::Stone).count(), 2);
    c.swap();
    assert!(c.current().iter().all(|x| *x == Cell::Empty));
    assert_eq!(Active::A.swap(), Active::B);
}
