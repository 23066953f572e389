use gnet::game::{Cell, Tick};

#[test]
fn tick_wraps() {
    let mut t = Tick::zero();
    assert_eq!(t, Tick(0));
    t.increment_self();
    assert_eq!(t, Tick(1));
    let mut m = Tick(u32::MAX);
    m.increment_self();
    assert_eq!(m, Tick(0));
    assert_ne!(Cell::Empty, Cell::Stone);
}
