use hydradx_pallets::referrals::{Config, Error, Event, Pallet, MIN_CODE_LENGTH};

fn registry() -> Pallet {
    Pallet::new(Config { code_length: 7 })
}

#[test]
fn a_code_is_registered_for_its_account() {
    let mut codes = registry();
    let result = codes.register_code(b"BALLS69".to_vec(), 42);
    assert_eq!(result, Ok(Event::CodeRegistered { code: b"BALLS69".to_vec(), account: 42 }));
    assert_eq!(codes.referral_account(&b"BALLS69".to_vec()), Some(42));
    assert_eq!(codes.referral_account(&b"BALLS68".to_vec()), None);
}

#[test]
fn a_code_longer_than_the_maximum_is_too_long() {
    let mut codes = registry();
    assert_eq!(codes.register_code(b"TOOLONGCODE".to_vec(), 1), Err(Error::TooLong));
    assert_eq!(codes.register_code(b"ABCDEFGH".to_vec(), 1), Err(Error::TooLong));
    assert_eq!(codes.referral_account(&b"ABCDEFGH".to_vec()), None);
    // Length comes first: these characters are never looked at.
    assert_eq!(codes.register_code(b"$$$$$$$$".to_vec(), 1), Err(Error::TooLong));
}

#[test]
fn a_code_shorter_than_the_minimum_is_too_short() {
    let mut codes = registry();
    assert_eq!(MIN_CODE_LENGTH, 3);
    assert_eq!(codes.register_code(Vec::new(), 1), Err(Error::TooShort));
    assert_eq!(codes.register_code(b"AB".to_vec(), 1), Err(Error::TooShort));
    assert_eq!(codes.register_code(b"$".to_vec(), 1), Err(Error::TooShort));
    assert!(codes.register_code(b"ABC".to_vec(), 1).is_ok());
}

#[test]
fn the_bounds_on_length_are_inclusive() {
    let mut codes = registry();
    assert!(codes.register_code(b"abc".to_vec(), 1).is_ok());
    assert!(codes.register_code(b"abcdefg".to_vec(), 2).is_ok());
}

#[test]
fn a_maximum_below_the_minimum_admits_no_code() {
    let mut codes = Pallet::new(Config { code_length: 2 });
    assert_eq!(codes.register_code(b"AB".to_vec(), 1), Err(Error::TooShort));
    assert_eq!(codes.register_code(b"ABC".to_vec(), 1), Err(Error::TooLong));
}

#[test]
fn a_code_with_another_character_is_invalid() {
    let mut codes = registry();
    assert_eq!(codes.register_code(b"ABCD?".to_vec(), 1), Err(Error::InvalidCharacter));
    assert_eq!(codes.register_code(b"AB CD".to_vec(), 1), Err(Error::InvalidCharacter));
    assert_eq!(codes.register_code(b"_ABCD".to_vec(), 1), Err(Error::InvalidCharacter));
    assert_eq!(codes.register_code(vec![b'A', b'B', 0], 1), Err(Error::InvalidCharacter));
    assert_eq!(codes.referral_account(&b"ABCD?".to_vec()), None);
}

#[test]
fn letters_and_digits_of_either_case_are_accepted() {
    let mut codes = registry();
    assert!(codes.register_code(b"azAZ09".to_vec(), 1).is_ok());
    assert_eq!(codes.referral_account(&b"azAZ09".to_vec()), Some(1));
}

#[test]
fn bytes_are_read_as_characters_of_their_own_number() {
    let mut codes = registry();
    // 0xE9 is a letter when read as a character; 0xD7 is the multiplication sign.
    assert!(codes.register_code(vec![b'A', b'B', 0xE9], 1).is_ok());
    assert_eq!(codes.register_code(vec![b'A', b'B', 0xD7], 1), Err(Error::InvalidCharacter));
}

#[test]
fn a_registered_code_is_not_registered_again() {
    let mut codes = registry();
    assert!(codes.register_code(b"BALLS69".to_vec(), 1).is_ok());
    assert_eq!(codes.register_code(b"BALLS69".to_vec(), 2), Err(Error::AlreadyExists));
    assert_eq!(codes.register_code(b"BALLS69".to_vec(), 1), Err(Error::AlreadyExists));
    assert_eq!(codes.referral_account(&b"BALLS69".to_vec()), Some(1));
}

#[test]
fn codes_differ_by_case() {
    let mut codes = registry();
    assert!(codes.register_code(b"balls".to_vec(), 1).is_ok());
    assert!(codes.register_code(b"BALLS".to_vec(), 2).is_ok());
    assert_eq!(codes.referral_account(&b"balls".to_vec()), Some(1));
    assert_eq!(codes.referral_account(&b"BALLS".to_vec()), Some(2));
}

#[test]
fn one_account_may_hold_several_codes() {
    let mut codes = registry();
    assert!(codes.register_code(b"ONE".to_vec(), 9).is_ok());
    assert!(codes.register_code(b"TWO".to_vec(), 9).is_ok());
    assert!(codes.register_code(b"ONE1".to_vec(), 9).is_ok());
    assert_eq!(codes.referral_account(&b"ONE".to_vec()), Some(9));
    assert_eq!(codes.referral_account(&b"TWO".to_vec()), Some(9));
    assert_eq!(codes.referral_account(&b"ONE1".to_vec()), Some(9));
    assert_eq!(codes.referral_account(&b"ON".to_vec()), None);
}

#[test]
fn an_examined_code_is_registered_on_the_finding_handed_in() {
    let mut codes = registry();
    assert_eq!(codes.register_examined(b"ABCD".to_vec(), 1, false), Err(Error::InvalidCharacter));
    assert_eq!(codes.referral_account(&b"ABCD".to_vec()), None);
    assert_eq!(
        codes.register_examined(b"ABCD".to_vec(), 1, true),
        Ok(Event::CodeRegistered { code: b"ABCD".to_vec(), account: 1 })
    );
    assert_eq!(codes.register_examined(b"ABCD".to_vec(), 2, true), Err(Error::AlreadyExists));
    assert_eq!(codes.register_examined(b"ABCD".to_vec(), 2, false), Err(Error::InvalidCharacter));
}

#[test]
fn an_examined_code_is_still_held_to_the_bounds_on_length() {
    let mut codes = registry();
    assert_eq!(codes.register_examined(b"AB".to_vec(), 1, true), Err(Error::TooShort));
    assert_eq!(codes.register_examined(b"ABCDEFGH".to_vec(), 1, true), Err(Error::TooLong));
    assert_eq!(codes.register_examined(b"ABCDEFGH".to_vec(), 1, false), Err(Error::TooLong));
}
