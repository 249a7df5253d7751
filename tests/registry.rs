use kyc_registry::{
    apply, create_customer, decode_registry, encode_registry, handle, load_registry,
    parse_command, payload_text, update_customer, AddressData, Command, CustomerData,
    CustomerDataList, EngineError, Envelope, KycDocument,
};

fn record(id: &str, lei: &str, kyc_status: bool) -> CustomerData {
    CustomerData {
        customer_id: id.to_string(),
        legal_name: "Acme Holdings".to_string(),
        registration_number: "RN-1".to_string(),
        incorporation_country: "DE".to_string(),
        lei_registration_status: "ISSUED".to_string(),
        lei: lei.to_string(),
        incorporation_date: "2001-02-03".to_string(),
        primary_country_operation: "FR".to_string(),
        primary_isic_code: "6419".to_string(),
        entity_type: "LLC".to_string(),
        swift_code: "ACMEDEFF".to_string(),
        kyc_status,
        addresses: vec![AddressData {
            address_type: "registered".to_string(),
            address_line1: "Hauptstraße 1".to_string(),
            address_line2: "".to_string(),
            city: "Berlin".to_string(),
            state: "BE".to_string(),
            country: "DE".to_string(),
            postal_code: "10115".to_string(),
        }],
        kyc_documents: vec![KycDocument {
            document_id: "D1".to_string(),
            document_type: "passport".to_string(),
            document_name: "scan.pdf".to_string(),
            document_transaction_id: "tx-9".to_string(),
        }],
    }
}

fn same_record(a: &CustomerData, b: &CustomerData) -> bool {
    format!("{:?}", a) == format!("{:?}", b)
}

fn registry_of(slot: &[u8]) -> Vec<CustomerData> {
    decode_registry(slot).expect("slot holds a registry").customers
}

fn envelope(command: &str, customer: CustomerData) -> Envelope {
    Envelope { command: command.to_string(), record: customer }
}

const PROGRAM: [u8; 4] = [7, 7, 7, 7];

#[test]
fn scenario_create_then_update_then_missing() {
    let mut slot = vec![0u8; 2048];
    let r = apply(Command::CreateCustomer(record("C1", "L1", false)), &mut slot);
    assert_eq!(r, Ok(()));
    let l = registry_of(&slot);
    assert_eq!(l.len(), 1);
    assert!(same_record(&l[0], &record("C1", "L1", false)));

    let r = apply(Command::UpdateKycStatus(record("C1", "L1", true)), &mut slot);
    assert_eq!(r, Ok(()));
    let l = registry_of(&slot);
    assert_eq!(l.len(), 1);
    assert!(l[0].kyc_status);
    assert!(same_record(&l[0], &record("C1", "L1", true)));

    let before = slot.clone();
    let r = apply(Command::UpdateKycStatus(record("C2", "L1", true)), &mut slot);
    assert_eq!(r, Err(EngineError::RecordNotFound));
    assert_eq!(slot, before);
}

#[test]
fn create_on_fresh_slot_holds_exactly_that_record() {
    let mut slot = vec![0u8; 1024];
    assert_eq!(load_registry(&slot).customers.len(), 0);
    assert_eq!(apply(Command::CreateCustomer(record("A", "B", true)), &mut slot), Ok(()));
    assert_eq!(slot.len(), 1024);
    let l = registry_of(&slot);
    assert_eq!(l.len(), 1);
    assert!(same_record(&l[0], &record("A", "B", true)));
}

#[test]
fn create_appends_last_and_keeps_earlier_records() {
    let mut slot = vec![0u8; 4096];
    apply(Command::CreateCustomer(record("C1", "L1", false)), &mut slot).unwrap();
    apply(Command::CreateCustomer(record("C2", "L2", true)), &mut slot).unwrap();
    let before = registry_of(&slot);
    apply(Command::CreateCustomer(record("C1", "L1", false)), &mut slot).unwrap();
    let after = registry_of(&slot);
    assert_eq!(after.len(), 3);
    assert!(same_record(&after[0], &before[0]));
    assert!(same_record(&after[1], &before[1]));
    assert!(same_record(&after[2], &record("C1", "L1", false)));
}

#[test]
fn update_changes_only_first_matching_status() {
    let mut slot = vec![0u8; 4096];
    apply(Command::CreateCustomer(record("C0", "L0", false)), &mut slot).unwrap();
    apply(Command::CreateCustomer(record("C1", "L1", false)), &mut slot).unwrap();
    apply(Command::CreateCustomer(record("C1", "L1", false)), &mut slot).unwrap();
    let mut change = record("C1", "L1", true);
    change.legal_name = "Other Name".to_string();
    assert_eq!(apply(Command::UpdateKycStatus(change), &mut slot), Ok(()));
    let l = registry_of(&slot);
    assert_eq!(l.len(), 3);
    assert!(same_record(&l[0], &record("C0", "L0", false)));
    assert!(same_record(&l[1], &record("C1", "L1", true)));
    assert!(same_record(&l[2], &record("C1", "L1", false)));
}

#[test]
fn update_needs_both_id_and_lei_to_match() {
    let mut slot = vec![0u8; 2048];
    apply(Command::CreateCustomer(record("C1", "L1", false)), &mut slot).unwrap();
    let before = slot.clone();
    assert_eq!(
        apply(Command::UpdateKycStatus(record("C1", "L2", true)), &mut slot),
        Err(EngineError::RecordNotFound)
    );
    assert_eq!(slot, before);
}

#[test]
fn update_with_empty_id_or_lei_is_a_no_op() {
    let mut slot = vec![0u8; 2048];
    apply(Command::CreateCustomer(record("", "L1", false)), &mut slot).unwrap();
    let before = slot.clone();
    assert_eq!(apply(Command::UpdateKycStatus(record("", "L1", true)), &mut slot), Ok(()));
    assert_eq!(slot, before);
    assert_eq!(apply(Command::UpdateKycStatus(record("C9", "", true)), &mut slot), Ok(()));
    assert_eq!(slot, before);
}

#[test]
fn update_on_fresh_slot_is_not_found() {
    let mut slot = vec![0u8; 64];
    assert_eq!(
        apply(Command::UpdateKycStatus(record("C1", "L1", true)), &mut slot),
        Err(EngineError::RecordNotFound)
    );
    assert_eq!(slot, vec![0u8; 64]);
}

#[test]
fn get_and_unknown_commands_change_nothing() {
    let mut slot = vec![0u8; 2048];
    apply(Command::CreateCustomer(record("C1", "L1", false)), &mut slot).unwrap();
    let before = slot.clone();
    assert_eq!(apply(Command::GetCustomer(record("C1", "L1", true)), &mut slot), Ok(()));
    assert_eq!(apply(Command::Noop, &mut slot), Ok(()));
    assert_eq!(slot, before);
}

#[test]
fn too_small_slot_is_refused_and_untouched() {
    let mut slot = vec![5u8; 40];
    let before = slot.clone();
    assert_eq!(
        apply(Command::CreateCustomer(record("C1", "L1", false)), &mut slot),
        Err(EngineError::CapacityExceeded)
    );
    assert_eq!(slot, before);
}

#[test]
fn exact_fit_is_accepted() {
    let mut one = CustomerDataList::new();
    create_customer(record("C1", "L1", false), &mut one);
    let n = encode_registry(&one).unwrap().len();
    let mut slot = vec![0u8; n];
    assert_eq!(apply(Command::CreateCustomer(record("C1", "L1", false)), &mut slot), Ok(()));
    let mut short = vec![0u8; n - 1];
    assert_eq!(
        apply(Command::CreateCustomer(record("C1", "L1", false)), &mut short),
        Err(EngineError::CapacityExceeded)
    );
    assert_eq!(short, vec![0u8; n - 1]);
}

#[test]
fn write_keeps_bytes_past_the_registry() {
    let mut slot = vec![0xAAu8; 1024];
    slot[0] = 0;
    slot[1] = 0;
    slot[2] = 0;
    slot[3] = 0;
    apply(Command::CreateCustomer(record("C1", "L1", false)), &mut slot).unwrap();
    let mut one = CustomerDataList::new();
    create_customer(record("C1", "L1", false), &mut one);
    let bytes = encode_registry(&one).unwrap();
    assert_eq!(&slot[..bytes.len()], &bytes[..]);
    assert!(slot[bytes.len()..].iter().all(|b| *b == 0xAA));
}

#[test]
fn round_trip_of_a_registry() {
    let mut l = CustomerDataList::new();
    create_customer(record("C1", "L1", false), &mut l);
    create_customer(record("Ж", "€", true), &mut l);
    let bytes = encode_registry(&l).unwrap();
    let back = decode_registry(&bytes).unwrap();
    assert_eq!(back.customers.len(), 2);
    assert!(same_record(&back.customers[0], &l.customers[0]));
    assert!(same_record(&back.customers[1], &l.customers[1]));
    let mut padded = bytes.clone();
    padded.extend_from_slice(&[1, 2, 3]);
    let back = decode_registry(&padded).unwrap();
    assert!(same_record(&back.customers[1], &l.customers[1]));
}

#[test]
fn empty_registry_encodes_to_four_zero_bytes() {
    assert_eq!(encode_registry(&CustomerDataList::new()), Some(vec![0, 0, 0, 0]));
}

#[test]
fn format_matches_borsh() {
    let c = record("C1", "Ł1", true);
    let mut expected = borsh::to_vec(&1u32).unwrap();
    for s in [
        &c.customer_id,
        &c.legal_name,
        &c.registration_number,
        &c.incorporation_country,
        &c.lei_registration_status,
        &c.lei,
        &c.incorporation_date,
        &c.primary_country_operation,
        &c.primary_isic_code,
        &c.entity_type,
        &c.swift_code,
    ] {
        expected.extend(borsh::to_vec(s).unwrap());
    }
    expected.extend(borsh::to_vec(&c.kyc_status).unwrap());
    let a = &c.addresses[0];
    let address: Vec<String> = vec![
        a.address_type.clone(),
        a.address_line1.clone(),
        a.address_line2.clone(),
        a.city.clone(),
        a.state.clone(),
        a.country.clone(),
        a.postal_code.clone(),
    ];
    expected.extend(borsh::to_vec(&1u32).unwrap());
    for s in &address {
        expected.extend(borsh::to_vec(s).unwrap());
    }
    let d = &c.kyc_documents[0];
    expected.extend(borsh::to_vec(&1u32).unwrap());
    for s in [&d.document_id, &d.document_type, &d.document_name, &d.document_transaction_id] {
        expected.extend(borsh::to_vec(s).unwrap());
    }
    let mut l = CustomerDataList::new();
    create_customer(c, &mut l);
    assert_eq!(encode_registry(&l).unwrap(), expected);
}

#[test]
fn string_bytes_are_length_prefixed_utf8() {
    let mut l = CustomerDataList::new();
    let mut c = record("é", "L", false);
    c.addresses.clear();
    c.kyc_documents.clear();
    create_customer(c, &mut l);
    let bytes = encode_registry(&l).unwrap();
    assert_eq!(&bytes[..10], &[1, 0, 0, 0, 2, 0, 0, 0, 0xC3, 0xA9]);
}

#[test]
fn garbage_slot_reads_as_empty() {
    let garbage = vec![1u8, 0, 0, 0, 9, 9, 9];
    assert!(decode_registry(&garbage).is_none());
    assert_eq!(load_registry(&garbage).customers.len(), 0);
    assert_eq!(load_registry(&[0u8, 0]).customers.len(), 0);
    let bad_flag = {
        let mut l = CustomerDataList::new();
        let mut c = record("C", "L", true);
        c.addresses.clear();
        c.kyc_documents.clear();
        create_customer(c, &mut l);
        let mut b = encode_registry(&l).unwrap();
        let flag_at = b.len() - 9;
        b[flag_at] = 2;
        b
    };
    assert!(decode_registry(&bad_flag).is_none());
}

#[test]
fn invalid_utf8_in_slot_is_not_a_registry() {
    let mut b = vec![1u8, 0, 0, 0, 1, 0, 0, 0, 0xFF];
    b.extend(vec![0u8; 200]);
    assert!(decode_registry(&b).is_none());
}

#[test]
fn payload_text_decodes_utf8() {
    assert_eq!(payload_text("héllo".as_bytes()), Ok("héllo".to_string()));
    assert_eq!(payload_text(&[0x68, 0xFF]), Err(EngineError::InvalidEncoding));
    assert_eq!(payload_text(&[0xED, 0xA0, 0x80]), Err(EngineError::InvalidEncoding));
}

#[test]
fn parse_command_dispatches_on_tag() {
    assert!(matches!(parse_command(envelope("CreateCustomer", record("a", "b", false))), Command::CreateCustomer(_)));
    assert!(matches!(parse_command(envelope("UpdateKycStatus", record("a", "b", false))), Command::UpdateKycStatus(_)));
    assert!(matches!(parse_command(envelope("GetCustomer", record("a", "b", false))), Command::GetCustomer(_)));
    assert!(matches!(parse_command(envelope("createcustomer", record("a", "b", false))), Command::Noop));
    assert!(matches!(parse_command(envelope("", record("a", "b", false))), Command::Noop));
}

#[test]
fn handle_refuses_foreign_owner_first() {
    let mut slot = vec![0u8; 512];
    let r = handle(&PROGRAM, &[1, 2, 3, 4], &mut slot, &[0xFF], None);
    assert_eq!(r, Err(EngineError::UnauthorizedAccount));
    assert_eq!(slot, vec![0u8; 512]);
    let r = handle(
        &PROGRAM,
        &[7, 7, 7],
        &mut slot,
        b"{}",
        Some(envelope("CreateCustomer", record("C1", "L1", false))),
    );
    assert_eq!(r, Err(EngineError::UnauthorizedAccount));
    assert_eq!(slot, vec![0u8; 512]);
}

#[test]
fn handle_reports_bad_text_then_bad_payload() {
    let mut slot = vec![0u8; 512];
    assert_eq!(handle(&PROGRAM, &PROGRAM, &mut slot, &[0xC0, 0x80], None), Err(EngineError::InvalidEncoding));
    assert_eq!(handle(&PROGRAM, &PROGRAM, &mut slot, b"not json", None), Err(EngineError::InvalidPayload));
    assert_eq!(slot, vec![0u8; 512]);
}

#[test]
fn handle_applies_the_tagged_command() {
    let mut slot = vec![0u8; 2048];
    let r = handle(&PROGRAM, &PROGRAM, &mut slot, b"{}", Some(envelope("CreateCustomer", record("C1", "L1", false))));
    assert_eq!(r, Ok(()));
    let r = handle(&PROGRAM, &PROGRAM, &mut slot, b"{}", Some(envelope("UpdateKycStatus", record("C1", "L1", true))));
    assert_eq!(r, Ok(()));
    assert!(registry_of(&slot)[0].kyc_status);
    let before = slot.clone();
    let r = handle(&PROGRAM, &PROGRAM, &mut slot, b"{}", Some(envelope("Frobnicate", record("C1", "L1", false))));
    assert_eq!(r, Ok(()));
    assert_eq!(slot, before);
}

#[test]
fn update_customer_on_list() {
    let mut l = CustomerDataList::new();
    create_customer(record("C1", "L1", false), &mut l);
    assert_eq!(update_customer(record("C1", "L1", true), &mut l), Ok(()));
    assert!(l.customers[0].kyc_status);
    assert_eq!(update_customer(record("X", "L1", false), &mut l), Err(EngineError::RecordNotFound));
    assert_eq!(update_customer(record("", "", false), &mut l), Ok(()));
    assert!(l.customers[0].kyc_status);
}
