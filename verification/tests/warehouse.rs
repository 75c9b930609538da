use sortflow::bins::{Bin, Slot, Step, ALLOCATED, FREE, PICKED, STORED};
use sortflow::error::ApiError;
use sortflow::warehouse::Warehouse;

const GOOD_A: u128 = 0x67e5504410b1426f9247bb680e5fe0c8;
const GOOD_B: u128 = 0x0192_5b3c_1d2e_7f00_8a1b_2c3d_4e5f_6071;

fn warehouse_with_bins(racks: &[i32]) -> Warehouse {
    let mut w = Warehouse::new();
    for r in racks {
        w.add_bin(*r).unwrap();
    }
    w
}

#[test]
fn bins_are_numbered_from_one() {
    let mut w = Warehouse::new();
    assert_eq!(w.add_bin(1), Ok(1));
    assert_eq!(w.add_bin(1), Ok(2));
    assert_eq!(w.add_bin(2), Ok(3));
    let bins = w.bins();
    assert_eq!(bins.len(), 3);
    assert_eq!(bins[2], Bin { id: 3, rack: 2, good: None, status: FREE });
}

#[test]
fn register_refuses_a_known_identifier() {
    let mut w = Warehouse::new();
    assert_eq!(w.register(GOOD_A), Ok(GOOD_A));
    assert!(w.is_received(GOOD_A));
    assert_eq!(w.register(GOOD_A), Err(ApiError::Database));
    assert!(!w.is_received(GOOD_B));
}

#[test]
fn allocate_needs_a_registered_good() {
    let mut w = warehouse_with_bins(&[1]);
    assert_eq!(w.allocate(GOOD_A), Err(ApiError::GoodNotFound(GOOD_A)));
    assert_eq!(w.bins()[0].status, FREE);
}

#[test]
fn allocate_needs_a_free_bin() {
    let mut w = warehouse_with_bins(&[1]);
    w.register(GOOD_A).unwrap();
    w.register(GOOD_B).unwrap();
    assert_eq!(w.allocate(GOOD_A), Ok(Slot { id: 1, rack: 1 }));
    assert_eq!(w.allocate(GOOD_B), Err(ApiError::FreeBinNotFound));
    assert!(w.is_received(GOOD_B));
}

#[test]
fn allocate_takes_lowest_free_bin() {
    let mut w = warehouse_with_bins(&[5, 6, 7]);
    w.register(GOOD_A).unwrap();
    w.register(GOOD_B).unwrap();
    assert_eq!(w.allocate(GOOD_A), Ok(Slot { id: 1, rack: 5 }));
    assert_eq!(w.allocate(GOOD_B), Ok(Slot { id: 2, rack: 6 }));
    assert!(!w.is_received(GOOD_A));
    assert_eq!(w.bins()[0], Bin { id: 1, rack: 5, good: Some(GOOD_A), status: ALLOCATED });
    // Once the first bin is freed again it is taken before the third.
    w.arrived(GOOD_A).unwrap();
    w.pick(GOOD_A).unwrap();
    w.departed(GOOD_A).unwrap();
    let c: u128 = 77;
    w.register(c).unwrap();
    assert_eq!(w.allocate(c), Ok(Slot { id: 1, rack: 5 }));
}

#[test]
fn full_pass_restores_tables() {
    let mut w = warehouse_with_bins(&[3, 4]);
    let before: Vec<Bin> = w.bins().clone();
    assert_eq!(w.register(GOOD_A), Ok(GOOD_A));
    let slot = w.allocate(GOOD_A).unwrap();
    assert_eq!(slot, Slot { id: 1, rack: 3 });
    assert_eq!(w.find_in_bin(GOOD_A), Err(ApiError::GoodNotFound(GOOD_A)));
    assert_eq!(w.arrived(GOOD_A), Ok(GOOD_A));
    assert_eq!(w.bins()[0].status, STORED);
    assert_eq!(w.find_in_bin(GOOD_A), Ok(slot));
    assert_eq!(w.pick(GOOD_A), Ok(GOOD_A));
    assert_eq!(w.bins()[0].status, PICKED);
    assert_eq!(w.find_in_bin(GOOD_A), Err(ApiError::GoodNotFound(GOOD_A)));
    assert_eq!(w.departed(GOOD_A), Ok(GOOD_A));
    assert_eq!(w.bins(), &before);
    assert!(!w.is_received(GOOD_A));
}

#[test]
fn steps_only_in_order() {
    let mut w = warehouse_with_bins(&[1]);
    w.register(GOOD_A).unwrap();
    w.allocate(GOOD_A).unwrap();
    assert_eq!(w.pick(GOOD_A), Err(ApiError::GoodNotFound(GOOD_A)));
    assert_eq!(w.departed(GOOD_A), Err(ApiError::GoodNotFound(GOOD_A)));
    assert_eq!(w.arrived(GOOD_A), Ok(GOOD_A));
    assert_eq!(w.arrived(GOOD_A), Err(ApiError::GoodNotFound(GOOD_A)));
    assert_eq!(w.departed(GOOD_A), Err(ApiError::GoodNotFound(GOOD_A)));
    assert_eq!(w.pick(GOOD_A), Ok(GOOD_A));
    assert_eq!(w.departed(GOOD_A), Ok(GOOD_A));
    assert_eq!(w.departed(GOOD_A), Err(ApiError::GoodNotFound(GOOD_A)));
}

#[test]
fn refused_requests_change_nothing() {
    let mut w = warehouse_with_bins(&[1, 2]);
    w.register(GOOD_A).unwrap();
    let bins = w.bins().clone();
    assert!(w.arrived(GOOD_A).is_err());
    assert!(w.allocate(GOOD_B).is_err());
    assert!(w.register(GOOD_A).is_err());
    assert_eq!(w.bins(), &bins);
    assert!(w.is_received(GOOD_A));
}

#[test]
fn step_on_unknown_good_is_not_found() {
    let mut w = warehouse_with_bins(&[1]);
    assert_eq!(w.step(GOOD_B, Step::Arrive), Err(ApiError::GoodNotFound(GOOD_B)));
}

#[test]
fn rack_bins_in_identifier_order() {
    let w = warehouse_with_bins(&[1, 2, 1, 3, 1]);
    let rack1: Vec<i32> = w.rack_bins(1).iter().map(|b| b.id).collect();
    assert_eq!(rack1, vec![1, 3, 5]);
    assert_eq!(w.rack_bins(9).len(), 0);
}

#[test]
fn rack_panel_shows_goods() {
    let mut w = warehouse_with_bins(&[1, 2, 1]);
    w.register(GOOD_A).unwrap();
    w.allocate(GOOD_A).unwrap();
    let rows = w.rack_panel(1);
    assert_eq!(rows.len(), 2);
    assert_eq!(rows[0].id, 1);
    assert_eq!(rows[0].good, "67e55044-10b1-426f-9247-bb680e5fe0c8");
    assert_eq!(rows[0].status, ALLOCATED);
    assert_eq!(rows[1].id, 3);
    assert_eq!(rows[1].good, "");
    assert_eq!(rows[1].status, FREE);
}

#[test]
fn register_new_gives_version7_identifier() {
    let mut w = Warehouse::new();
    let id = w.register_new().unwrap();
    assert!(w.is_received(id));
    assert_eq!((id >> 76) & 0xf, 7);
    assert_eq!((id >> 62) & 0x3, 2);
    let text = sortflow::ids::good_id_text(id);
    assert_eq!(&text[14..15], "7");
    let other = w.register_new().unwrap();
    assert!(id < other);
    assert!(w.is_received(id));
    assert!(w.is_received(other));
}

#[test]
fn pick_needs_allocation_and_arrival() {
    let mut w = warehouse_with_bins(&[1, 1]);
    w.register(GOOD_A).unwrap();
    w.register(GOOD_B).unwrap();
    assert!(w.pick(GOOD_A).is_err());
    w.allocate(GOOD_B).unwrap();
    w.arrived(GOOD_B).unwrap();
    assert!(w.pick(GOOD_A).is_err());
    w.allocate(GOOD_A).unwrap();
    assert!(w.pick(GOOD_A).is_err());
    w.arrived(GOOD_A).unwrap();
    assert_eq!(w.pick(GOOD_A), Ok(GOOD_A));
    assert!(w.pick(GOOD_A).is_err());
}
