use atc_engine::names::{
    Name, NAME_APPROACH, NAME_BASE, NAME_CENTER, NAME_CROSSWIND, NAME_DEFAULT, NAME_DEPARTURE,
    NAME_DOWNWIND, NAME_GROUND, NAME_SID, NAME_STAR, NAME_TOWER, NAME_UPWIND,
};

#[test]
fn a_name_is_its_bytes_read_as_one_number() {
    assert_eq!(Name::from_bytes(b""), Some(Name(0)));
    assert_eq!(Name::from_bytes(b"A"), Some(Name(65)));
    assert_eq!(Name::from_bytes(b"AB"), Some(Name(65 * 256 + 66)));
    assert_eq!(Name::from_bytes(b"27L"), Some(Name(0x32374c)));
}

#[test]
fn a_name_holds_at_most_sixteen_bytes() {
    assert!(Name::from_bytes(b"0123456789abcdef").is_some());
    assert_eq!(Name::from_bytes(b"0123456789abcdefg"), None);
    assert_eq!(
        Name::from_bytes(&[255u8; 16]),
        Some(Name(u128::MAX))
    );
}

#[test]
fn a_name_holds_no_zero_byte() {
    assert_eq!(Name::from_bytes(&[65, 0, 66]), None);
    assert_eq!(Name::from_bytes(&[0]), None);
}

#[test]
fn different_texts_have_different_names() {
    assert_ne!(Name::from_bytes(b"AAL1"), Name::from_bytes(b"AAL2"));
    assert_ne!(Name::from_bytes(b"A"), Name::from_bytes(b"AA"));
    assert_eq!(Name::from_bytes(b"UAL77"), Name::from_bytes(b"UAL77"));
}

#[test]
fn the_well_known_names_are_their_texts() {
    let named = |text: &[u8]| Name::from_bytes(text).unwrap().0;
    assert_eq!(NAME_SID, named(b"SID"));
    assert_eq!(NAME_STAR, named(b"STAR"));
    assert_eq!(NAME_CROSSWIND, named(b"CW"));
    assert_eq!(NAME_DOWNWIND, named(b"DW"));
    assert_eq!(NAME_UPWIND, named(b"UW"));
    assert_eq!(NAME_BASE, named(b"BS"));
    assert_eq!(NAME_DEFAULT, named(b"default"));
    assert_eq!(NAME_GROUND, named(b"ground"));
    assert_eq!(NAME_TOWER, named(b"tower"));
    assert_eq!(NAME_DEPARTURE, named(b"departure"));
    assert_eq!(NAME_APPROACH, named(b"approach"));
    assert_eq!(NAME_CENTER, named(b"center"));
}

#[test]
fn a_name_gives_its_bytes_back() {
    for text in [&b""[..], b"A", b"27L", b"AAL1234", b"0123456789abcdef"] {
        assert_eq!(Name::from_bytes(text).unwrap().to_bytes(), text.to_vec());
    }
    assert_eq!(Name(256).to_bytes(), vec![1, 0]);
    assert_eq!(Name(u128::MAX).to_bytes(), vec![255; 16]);
    assert_eq!(Name(NAME_DEPARTURE).to_bytes(), b"departure".to_vec());
}
