use sortflow::bins::{advance, allocation, location, occupy, progression, Bin, Slot, Step, ALLOCATED, FREE, PICKED, STORED};
use sortflow::error::ApiError;

fn free_bin() -> Bin {
    Bin { id: 4, rack: 2, good: None, status: FREE }
}

#[test]
fn occupy_marks_allocated() {
    let b = occupy(free_bin(), 9);
    assert_eq!(b, Bin { id: 4, rack: 2, good: Some(9), status: ALLOCATED });
    assert!(!b.is_free());
    assert!(b.holds(9, ALLOCATED));
    assert!(!b.holds(8, ALLOCATED));
}

#[test]
fn advance_through_lifecycle() {
    let b = occupy(free_bin(), 9);
    let b = advance(b, Step::Arrive);
    assert_eq!(b.status, STORED);
    let b = advance(b, Step::Pick);
    assert_eq!(b.status, PICKED);
    let b = advance(b, Step::Depart);
    assert_eq!(b, free_bin());
    assert!(b.is_free());
}

#[test]
fn status_before_each_step() {
    assert_eq!(Step::Arrive.status_before(), ALLOCATED);
    assert_eq!(Step::Pick.status_before(), STORED);
    assert_eq!(Step::Depart.status_before(), PICKED);
}

#[test]
fn allocation_decision() {
    assert_eq!(allocation(9, true, None), Err(ApiError::FreeBinNotFound));
    assert_eq!(allocation(9, true, Some(free_bin())), Ok(occupy(free_bin(), 9)));
    assert_eq!(allocation(9, false, Some(free_bin())), Err(ApiError::GoodNotFound(9)));
    assert_eq!(allocation(9, false, None), Err(ApiError::GoodNotFound(9)));
}

#[test]
fn progression_decision() {
    assert_eq!(progression(9, Step::Pick, None), Err(ApiError::GoodNotFound(9)));
    let stored = Bin { id: 4, rack: 2, good: Some(9), status: STORED };
    assert_eq!(progression(9, Step::Pick, Some(stored)), Ok(Bin { status: PICKED, ..stored }));
}

#[test]
fn location_decision() {
    assert_eq!(location(9, None), Err(ApiError::GoodNotFound(9)));
    let stored = Bin { id: 4, rack: 2, good: Some(9), status: STORED };
    assert_eq!(location(9, Some(stored)), Ok(Slot { id: 4, rack: 2 }));
    assert_eq!(stored.slot(), Slot { id: 4, rack: 2 });
}
