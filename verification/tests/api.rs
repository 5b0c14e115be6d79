use btleplug::api::{
    matches_identifier, matches_retrieval_selectors, matches_service,
    merge_retrieved_peripherals, unsupported_retrieve_peripherals, AddressType, CharPropFlags,
    Error, ParseCharPropFlagsError, PeripheralId, RetrievePeripheralsOptions,
};
use btleplug::bleuuid::Uuid;

#[test]
fn retrieve_options_are_publicly_constructible() {
    let options = RetrievePeripheralsOptions {
        identifiers: Some(Vec::new()),
        services: Some(vec![Uuid::nil()]),
    };
    assert_eq!(options.services, Some(vec![Uuid::nil()]));
    assert_eq!(options.identifiers, Some(Vec::new()));
}

#[test]
fn retrieve_options_default_is_explicit() {
    assert_eq!(RetrievePeripheralsOptions::default().identifiers, None);
    assert_eq!(RetrievePeripheralsOptions::default().services, None);
}

#[test]
fn retrieve_empty_identifier_selector_matches_nothing() {
    assert!(!matches_identifier(&1_u8, &[]));
}

#[test]
fn retrieve_empty_service_selector_matches_nothing() {
    assert!(!matches_service(&[Uuid::nil()], &[]));
}

#[test]
fn retrieve_selector_matching_uses_any_value() {
    assert!(matches_identifier(&2_u8, &[1, 2, 3]));
    assert!(matches_service(
        &[Uuid::nil()],
        &[Uuid::from_u128(1), Uuid::nil()],
    ));
}

#[test]
fn retrieve_unknown_identifiers_are_omitted() {
    let requested = [1_u8, 2_u8];
    assert!(!matches_identifier(&3, &requested));
}

#[test]
fn retrieve_order_is_preserved() {
    let merged = merge_retrieved_peripherals(vec![3_u8, 1, 2], |value| *value);
    assert_eq!(merged, vec![3, 1, 2]);
}

#[test]
fn retrieve_combined_selectors_use_union() {
    assert!(matches_service(&[Uuid::nil()], &[Uuid::nil()]));
    assert!(!matches_service(&[], &[Uuid::nil()]));
}

#[test]
fn retrieve_results_are_deduplicated() {
    let merged = merge_retrieved_peripherals(vec![1_u8, 2, 1, 3, 2], |value| *value);
    assert_eq!(merged, vec![1, 2, 3]);
}

#[test]
fn retrieve_peripherals_default_is_not_supported() {
    let error = unsupported_retrieve_peripherals::<u8>().unwrap_err();
    assert!(matches!(
        error,
        Error::NotSupported(operation) if operation == "retrieve_peripherals"
    ));
}

#[test]
fn retrieval_selectors_combine_as_a_union() {
    let id = PeripheralId(Uuid::from_u128(7));
    let services = [Uuid::from_u128(0x180d)];
    let unspecified = RetrievePeripheralsOptions::default();
    assert!(matches_retrieval_selectors(&id, &services, &unspecified));
    let empty_ids = RetrievePeripheralsOptions { identifiers: Some(vec![]), services: None };
    assert!(!matches_retrieval_selectors(&id, &services, &empty_ids));
    let by_service = RetrievePeripheralsOptions {
        identifiers: Some(vec![PeripheralId(Uuid::from_u128(8))]),
        services: Some(vec![Uuid::from_u128(0x180d)]),
    };
    assert!(matches_retrieval_selectors(&id, &services, &by_service));
    let by_id = RetrievePeripheralsOptions { identifiers: Some(vec![id]), services: Some(vec![]) };
    assert!(matches_retrieval_selectors(&id, &[], &by_id));
}

#[test]
fn address_types_read_and_number() {
    assert_eq!(AddressType::from_str("public"), Some(AddressType::Public));
    assert_eq!(AddressType::from_str("random"), Some(AddressType::Random));
    assert_eq!(AddressType::from_str("Public"), None);
    assert_eq!(AddressType::from_u8(1), Some(AddressType::Public));
    assert_eq!(AddressType::from_u8(2), Some(AddressType::Random));
    assert_eq!(AddressType::from_u8(0), None);
    assert_eq!(AddressType::Public.num(), 1);
    assert_eq!(AddressType::Random.num(), 2);
    assert_eq!(AddressType::default(), AddressType::Public);
}

#[test]
fn bluez_flag_names() {
    assert_eq!(CharPropFlags::from_str("read").map(|f| f.bits()), Ok(0x02));
    assert_eq!(CharPropFlags::from_str("write-without-response").map(|f| f.bits()), Ok(0x04));
    assert_eq!(CharPropFlags::from_str("extended-properties").map(|f| f.bits()), Ok(0x80));
    assert_eq!(CharPropFlags::from_str("authorize").map(|f| f.bits()), Ok(0));
    assert_eq!(
        CharPropFlags::from_str("bogus"),
        Err(ParseCharPropFlagsError::UnknownFlag("bogus".to_string()))
    );
}

#[test]
fn core_bluetooth_properties_drop_extended_bit() {
    assert_eq!(CharPropFlags::from_core_bluetooth(0xff).bits(), 0x7f);
    assert_eq!(CharPropFlags::from_core_bluetooth(0x12).bits(), 0x12);
    let mut f = CharPropFlags::empty();
    f.insert(CharPropFlags::from_bits_truncate(0x10));
    assert!(f.contains(CharPropFlags::from_bits_truncate(0x10)));
    assert!(!f.contains(CharPropFlags::from_bits_truncate(0x02)));
    assert_eq!(f.union(CharPropFlags::from_bits_truncate(0x02)).bits(), 0x12);
}

#[test]
fn bluez_flag_bits_keep_the_low_byte() {
    assert_eq!(CharPropFlags::from_bluez(0x0002).bits(), 0x02);
    assert_eq!(CharPropFlags::from_bluez(0x00ff).bits(), 0xff);
    assert_eq!(CharPropFlags::from_bluez(0x0140).bits(), 0x40);
    assert_eq!(CharPropFlags::from_bluez(0x7f00).bits(), 0x00);
}

#[test]
fn merging_a_merged_list_again_keeps_it() {
    let items = vec![(1_u8, 'a'), (2, 'b'), (1, 'c'), (3, 'd'), (2, 'e')];
    let once = merge_retrieved_peripherals(items, |item: &(u8, char)| item.0);
    assert_eq!(once, vec![(1, 'a'), (2, 'b'), (3, 'd')]);
    let twice = merge_retrieved_peripherals(once.clone(), |item: &(u8, char)| item.0);
    assert_eq!(twice, once);
}
