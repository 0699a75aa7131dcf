use bitfield::refstate::RefState;

#[test]
fn shared_borrows_are_counted() {
    let one = RefState::Unshared.borrow();
    assert_eq!(one, Some(RefState::Shared(1)));
    let two = one.unwrap().borrow();
    assert_eq!(two, Some(RefState::Shared(2)));
    assert_eq!(two.unwrap().release(), RefState::Shared(1));
    assert_eq!(RefState::Shared(1).release(), RefState::Unshared);
}

#[test]
fn an_exclusive_borrow_shuts_the_others_out() {
    assert_eq!(RefState::Unshared.borrow_mut(), Some(RefState::Exclusive));
    assert_eq!(RefState::Exclusive.borrow(), None);
    assert_eq!(RefState::Exclusive.borrow_mut(), None);
    assert_eq!(RefState::Shared(1).borrow_mut(), None);
    assert_eq!(RefState::Shared(7).borrow_mut(), None);
    assert_eq!(RefState::Exclusive.release_mut(), RefState::Unshared);
}
