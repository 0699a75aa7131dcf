use bitfield::cell::Cell;

#[test]
fn cell_hands_back_what_was_set() {
    let cell = Cell::new(3);
    assert_eq!(cell.get(), 3);
    let shared = &cell;
    shared.set(8);
    assert_eq!(cell.get(), 8);
}

#[test]
fn cell_keeps_the_last_of_many_values() {
    let cell = Cell::new(0u8);
    for value in 0..=255u8 {
        cell.set(value);
        assert_eq!(cell.get(), value);
    }
    let other = Cell::new((1u32, false));
    other.set((2, true));
    assert_eq!(other.get(), (2, true));
    assert_eq!(cell.get(), 255);
}
