use hydradx_pallets::bonds::{Bond, Error, Registry};

fn bond(amount: u128, maturity: u64) -> Bond {
    Bond { underlying_asset: 7, amount, maturity, holder: 1 }
}

#[test]
fn a_new_registry_holds_nothing() {
    let registry = Registry::new();
    assert_eq!(registry.get(0), None);
    assert_eq!(registry.get(u64::MAX), None);
    assert!(registry.iterate().is_empty());
}

#[test]
fn an_inserted_bond_is_found_under_its_identifier() {
    let mut registry = Registry::new();
    assert_eq!(registry.insert(5, bond(200, 10)), Ok(()));
    assert_eq!(registry.get(5), Some(bond(200, 10)));
    assert_eq!(registry.get(4), None);
    assert_eq!(registry.get(6), None);
}

#[test]
fn a_taken_identifier_is_refused() {
    let mut registry = Registry::new();
    assert_eq!(registry.insert(5, bond(200, 10)), Ok(()));
    assert_eq!(registry.insert(5, bond(300, 20)), Err(Error::DuplicateBond));
    assert_eq!(registry.get(5), Some(bond(200, 10)));
    assert_eq!(registry.iterate().len(), 1);
}

#[test]
fn a_bond_without_principal_is_refused() {
    let mut registry = Registry::new();
    assert_eq!(registry.insert(5, bond(0, 10)), Err(Error::InvalidAmount));
    assert_eq!(registry.get(5), None);
    assert_eq!(registry.insert(5, bond(1, 10)), Ok(()));
    assert_eq!(registry.insert(5, bond(0, 10)), Err(Error::DuplicateBond));
}

#[test]
fn the_listing_ascends_whatever_the_order_of_insertion() {
    let mut registry = Registry::new();
    for id in [9u64, 2, 7, 0, u64::MAX, 3] {
        assert_eq!(registry.insert(id, bond(id as u128 % 1000 + 1, id)), Ok(()));
    }
    let listing = registry.iterate();
    let ids: Vec<u64> = listing.iter().map(|entry| entry.0).collect();
    assert_eq!(ids, vec![0, 2, 3, 7, 9, u64::MAX]);
    for (id, found) in listing {
        assert_eq!(registry.get(id), Some(found));
        assert_eq!(found.maturity, id);
    }
}

#[test]
fn update_amount_overwrites_the_amount_alone() {
    let mut registry = Registry::new();
    registry.insert(1, bond(200, 10)).unwrap();
    registry.insert(2, bond(300, 20)).unwrap();
    assert_eq!(registry.update_amount(1, 150), Ok(()));
    assert_eq!(registry.get(1), Some(bond(150, 10)));
    assert_eq!(registry.get(2), Some(bond(300, 20)));
}

#[test]
fn update_amount_to_zero_deletes_the_record() {
    let mut registry = Registry::new();
    registry.insert(1, bond(200, 10)).unwrap();
    registry.insert(2, bond(300, 20)).unwrap();
    registry.insert(3, bond(400, 30)).unwrap();
    assert_eq!(registry.update_amount(2, 0), Ok(()));
    assert_eq!(registry.get(2), None);
    assert_eq!(registry.iterate(), vec![(1, bond(200, 10)), (3, bond(400, 30))]);
}

#[test]
fn update_amount_of_an_unknown_bond_fails() {
    let mut registry = Registry::new();
    registry.insert(1, bond(200, 10)).unwrap();
    assert_eq!(registry.update_amount(2, 5), Err(Error::UnknownBond));
    assert_eq!(registry.update_amount(2, 0), Err(Error::UnknownBond));
    assert_eq!(registry.iterate(), vec![(1, bond(200, 10))]);
}

#[test]
fn set_maturity_overwrites_the_maturity_alone() {
    let mut registry = Registry::new();
    registry.insert(1, bond(200, 10)).unwrap();
    registry.insert(2, bond(300, 20)).unwrap();
    assert_eq!(registry.set_maturity(2, 5), Ok(()));
    assert_eq!(registry.get(2), Some(bond(300, 5)));
    assert_eq!(registry.get(1), Some(bond(200, 10)));
}

#[test]
fn set_maturity_of_an_unknown_bond_fails() {
    let mut registry = Registry::new();
    assert_eq!(registry.set_maturity(1, 5), Err(Error::UnknownBond));
    assert!(registry.iterate().is_empty());
}

#[test]
fn a_deleted_identifier_can_be_registered_again_by_hand() {
    let mut registry = Registry::new();
    registry.insert(1, bond(200, 10)).unwrap();
    registry.update_amount(1, 0).unwrap();
    assert_eq!(registry.insert(1, bond(5, 6)), Ok(()));
    assert_eq!(registry.get(1), Some(bond(5, 6)));
}
