use hydradx_pallets::weights::{HydraWeight, RuntimeDbWeight, Weight};

#[test]
fn weights_add_in_each_dimension() {
    let sum = Weight::from_parts(1, 2).saturating_add(Weight::from_parts(10, 20));
    assert_eq!(sum, Weight { ref_time: 11, proof_size: 22 });
}

#[test]
fn weights_saturate_in_each_dimension_alone() {
    let sum = Weight::from_parts(u64::MAX, 2).saturating_add(Weight::from_parts(1, 20));
    assert_eq!(sum, Weight { ref_time: u64::MAX, proof_size: 22 });
    let sum = Weight::from_parts(1, u64::MAX - 1).saturating_add(Weight::from_parts(1, 20));
    assert_eq!(sum, Weight { ref_time: 2, proof_size: u64::MAX });
}

#[test]
fn reads_and_writes_cost_time_and_no_proof() {
    let db = RuntimeDbWeight { read: 25_000_000, write: 100_000_000 };
    assert_eq!(db.reads(4), Weight { ref_time: 100_000_000, proof_size: 0 });
    assert_eq!(db.writes(1), Weight { ref_time: 100_000_000, proof_size: 0 });
    assert_eq!(db.reads(0), Weight { ref_time: 0, proof_size: 0 });
    assert_eq!(db.writes(u64::MAX), Weight { ref_time: u64::MAX, proof_size: 0 });
}

#[test]
fn settling_an_otc_order_costs_the_measured_time_and_the_database_accesses() {
    let db = RuntimeDbWeight { read: 25_000_000, write: 100_000_000 };
    let weight = HydraWeight::<()>::settle_otc_order(db);
    assert_eq!(weight.ref_time, 102_441_000 + 4 * 25_000_000 + 100_000_000);
    assert_eq!(weight.proof_size, 6196);
}

#[test]
fn settling_with_a_free_database_costs_the_measured_time() {
    let weight = HydraWeight::<u8>::settle_otc_order(RuntimeDbWeight { read: 0, write: 0 });
    assert_eq!(weight, Weight { ref_time: 102_441_000, proof_size: 6196 });
}

#[test]
fn settling_saturates_with_a_costly_database() {
    let weight = HydraWeight::<()>::settle_otc_order(RuntimeDbWeight { read: u64::MAX / 2, write: 0 });
    assert_eq!(weight, Weight { ref_time: u64::MAX, proof_size: 6196 });
    let weight = HydraWeight::<()>::settle_otc_order(RuntimeDbWeight { read: 0, write: u64::MAX });
    assert_eq!(weight, Weight { ref_time: u64::MAX, proof_size: 6196 });
}
