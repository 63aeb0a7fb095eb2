use uds_codec::alfi::AddressAndLengthFormatIdentifier;
use uds_codec::dynamic::{DefinitionType, DynamicallyDID, DynamicallyDefineDID, DynamicallyMemAddr};
use uds_codec::error::Iso14229Error;
use uds_codec::memory_location::MemoryLocation;
use uds_codec::period::{ReadByPeriodIdData, TransmissionMode};
use uds_codec::service::{Configuration, Request, RequestData, Service, SubFunction};
use uds_codec::tester_present::TesterPresent;
use uds_codec::utils::{
    data_length_check, join_suppress_positive, length_of_u_type, peel_suppress_positive, slice_to_u128,
    u128_to_vec,
};

fn ddid_request(code: u8, data: Vec<u8>) -> Request {
    Request { service: Service::DynamicalDefineDID, sub_func: Some(SubFunction::new(code, false)), data }
}

fn ddid_round_trip(v: DynamicallyDefineDID, expected: DynamicallyDefineDID, code: u8) {
    let cfg = Configuration::new();
    let bytes = v.to_vec(&cfg);
    let parsed = DynamicallyDefineDID::try_parse(&ddid_request(code, bytes), &cfg).unwrap();
    assert_eq!(parsed, expected);
}

#[test]
fn length_check_at_least_and_exact() {
    assert_eq!(data_length_check(3, 3, false), Ok(()));
    assert_eq!(data_length_check(4, 3, false), Ok(()));
    assert_eq!(data_length_check(2, 3, false), Err(Iso14229Error::InvalidDataLength { expect: 3, actual: 2 }));
    assert_eq!(data_length_check(4, 3, true), Err(Iso14229Error::InvalidDataLength { expect: 3, actual: 4 }));
    assert_eq!(data_length_check(0, 0, true), Ok(()));
}

#[test]
fn big_endian_integers() {
    assert_eq!(slice_to_u128(&[]), 0);
    assert_eq!(slice_to_u128(&[0x12, 0x34]), 0x1234);
    assert_eq!(slice_to_u128(&[0xFF; 16]), u128::MAX);
    assert_eq!(u128_to_vec(0x1234, 4), vec![0x00, 0x00, 0x12, 0x34]);
    assert_eq!(u128_to_vec(0x123456, 2), vec![0x34, 0x56]);
    assert_eq!(u128_to_vec(7, 0), Vec::<u8>::new());
    assert_eq!(u128_to_vec(u128::MAX, 16), vec![0xFF; 16]);
}

#[test]
fn minimal_widths() {
    assert_eq!(length_of_u_type(0), 1);
    assert_eq!(length_of_u_type(0xFF), 1);
    assert_eq!(length_of_u_type(0x100), 2);
    assert_eq!(length_of_u_type(0x1000), 2);
    assert_eq!(length_of_u_type(0x1_0000), 3);
    assert_eq!(length_of_u_type(u128::MAX), 16);
}

#[test]
fn sub_function_bits_split_and_join() {
    for b in 0u8..=255 {
        let (flag, code) = peel_suppress_positive(b);
        assert_eq!(flag, b >> 7 == 1);
        assert_eq!(code, b & 0x7F);
        assert_eq!(join_suppress_positive(code, flag), b);
        assert_eq!(SubFunction::new(code, flag).to_byte(), b);
    }
    assert_eq!(peel_suppress_positive(0x83), (true, 0x03));
    assert_eq!(peel_suppress_positive(0x03), (false, 0x03));
}

#[test]
fn alfi_widths_round_trip() {
    for a in 1u8..=15 {
        for s in 1u8..=15 {
            let alfi = AddressAndLengthFormatIdentifier::new(a, s).unwrap();
            assert_eq!(alfi.to_byte(), (s << 4) | a);
            let back = AddressAndLengthFormatIdentifier::try_from_byte(alfi.to_byte()).unwrap();
            assert_eq!(back.length_of_memory_address(), a as usize);
            assert_eq!(back.length_of_memory_size(), s as usize);
            assert_eq!(back.length(), 1 + a as usize + s as usize);
        }
    }
}

#[test]
fn alfi_rejects_zero_or_wide() {
    assert!(matches!(AddressAndLengthFormatIdentifier::new(0, 1), Err(Iso14229Error::InvalidParam(_))));
    assert!(matches!(AddressAndLengthFormatIdentifier::new(1, 0), Err(Iso14229Error::InvalidParam(_))));
    assert!(matches!(AddressAndLengthFormatIdentifier::new(16, 1), Err(Iso14229Error::InvalidParam(_))));
    assert!(matches!(AddressAndLengthFormatIdentifier::try_from_byte(0x10), Err(Iso14229Error::InvalidParam(_))));
    assert!(matches!(AddressAndLengthFormatIdentifier::try_from_byte(0x01), Err(Iso14229Error::InvalidParam(_))));
}

#[test]
fn memory_location_decodes_and_encodes() {
    let cfg = Configuration::new();
    let data = [0x24, 0x20, 0x48, 0x13, 0x92, 0x01, 0x03];
    let loc = MemoryLocation::from_slice(&data, &cfg).unwrap();
    assert_eq!(loc.memory_address(), 0x2048_1392);
    assert_eq!(loc.memory_size(), 0x0103);
    assert_eq!(loc.len(), 7);
    assert_eq!(loc.to_vec(&cfg), data.to_vec());
}

#[test]
fn memory_location_keeps_declared_widths() {
    let cfg = Configuration::new();
    let alfi = AddressAndLengthFormatIdentifier::new(4, 2).unwrap();
    let loc = MemoryLocation::new(alfi, 0x10, 0x1).unwrap();
    assert_eq!(loc.len(), 7);
    assert_eq!(loc.to_vec(&cfg), vec![0x24, 0x00, 0x00, 0x00, 0x10, 0x00, 0x01]);
}

#[test]
fn memory_location_errors() {
    let cfg = Configuration::new();
    assert_eq!(
        MemoryLocation::from_slice(&[0x11, 0x01], &cfg),
        Err(Iso14229Error::InvalidDataLength { expect: 3, actual: 2 })
    );
    assert_eq!(
        MemoryLocation::from_slice(&[0x24, 0x01, 0x02], &cfg),
        Err(Iso14229Error::InvalidDataLength { expect: 7, actual: 3 })
    );
    assert!(matches!(MemoryLocation::from_slice(&[0x10, 0x01, 0x02], &cfg), Err(Iso14229Error::InvalidParam(_))));
    assert!(matches!(MemoryLocation::from_slice(&[0x11, 0x00, 0x02], &cfg), Err(Iso14229Error::InvalidParam(_))));
    assert!(matches!(MemoryLocation::from_slice(&[0x11, 0x01, 0x00], &cfg), Err(Iso14229Error::InvalidParam(_))));
    let alfi = AddressAndLengthFormatIdentifier::new(1, 1).unwrap();
    assert!(matches!(MemoryLocation::new(alfi, 0, 1), Err(Iso14229Error::InvalidParam(_))));
    assert!(matches!(MemoryLocation::new(alfi, 1, 0), Err(Iso14229Error::InvalidParam(_))));
}

#[test]
fn period_empty_buffer_is_too_short() {
    assert!(matches!(
        ReadByPeriodIdData::try_from(&[]),
        Err(Iso14229Error::InvalidDataLength { expect: 1, actual: 0 })
    ));
}

#[test]
fn period_sending_mode_needs_identifier() {
    assert!(matches!(ReadByPeriodIdData::try_from(&[0x01]), Err(Iso14229Error::InvalidParam(_))));
    assert!(matches!(ReadByPeriodIdData::try_from(&[0x03]), Err(Iso14229Error::InvalidParam(_))));
    assert!(matches!(
        ReadByPeriodIdData::new(TransmissionMode::SendAtMediumRate, vec![]),
        Err(Iso14229Error::InvalidParam(_))
    ));
}

#[test]
fn period_stop_sending_without_identifier() {
    let v = ReadByPeriodIdData::try_from(&[0x04]).unwrap();
    assert_eq!(v.transmission_mode(), TransmissionMode::StopSending);
    assert!(v.period_did().is_empty());
}

#[test]
fn period_invalid_mode() {
    assert!(matches!(ReadByPeriodIdData::try_from(&[0x05, 0x01]), Err(Iso14229Error::InvalidParam(_))));
    assert!(matches!(ReadByPeriodIdData::try_from(&[0x00]), Err(Iso14229Error::InvalidParam(_))));
}

#[test]
fn period_round_trip() {
    let cfg = Configuration::new();
    let v = ReadByPeriodIdData::new(TransmissionMode::SendAtFastRate, vec![0xE3, 0x24]).unwrap();
    let bytes = v.to_vec(&cfg);
    assert_eq!(bytes, vec![0x03, 0xE3, 0x24]);
    let req = ReadByPeriodIdData::request(&bytes, None, &cfg).unwrap();
    assert_eq!(req.service, Service::ReadDataByPeriodId);
    assert_eq!(req.sub_func, None);
    let back = ReadByPeriodIdData::try_parse(&req, &cfg).unwrap();
    assert_eq!(back.transmission_mode(), TransmissionMode::SendAtFastRate);
    assert_eq!(back.period_did(), &vec![0xE3, 0x24]);
}

#[test]
fn period_sub_function_is_not_looked_at() {
    let cfg = Configuration::new();
    let req = ReadByPeriodIdData::request(&[0x04], Some(0x01), &cfg).unwrap();
    assert_eq!(req.service, Service::ReadDataByPeriodId);
    assert_eq!(req.sub_func, None);
    assert_eq!(req.data, vec![0x04]);
    let tagged = Request {
        service: Service::ReadDataByPeriodId,
        sub_func: Some(SubFunction::new(0x01, false)),
        data: vec![0x04],
    };
    let v = ReadByPeriodIdData::try_parse(&tagged, &cfg).unwrap();
    assert_eq!(v.transmission_mode(), TransmissionMode::StopSending);
    assert!(v.period_did().is_empty());
}

#[test]
fn period_request_errors() {
    let cfg = Configuration::new();
    assert!(matches!(
        ReadByPeriodIdData::request(&[], None, &cfg),
        Err(Iso14229Error::InvalidDataLength { expect: 1, actual: 0 })
    ));
    let wrong = Request { service: Service::TesterPresent, sub_func: None, data: vec![0x04] };
    assert!(matches!(
        ReadByPeriodIdData::try_parse(&wrong, &cfg),
        Err(Iso14229Error::ServiceError(Service::TesterPresent))
    ));
}

#[test]
fn period_empty_identifier_message() {
    assert!(matches!(
        ReadByPeriodIdData::new(TransmissionMode::SendAtSlowRate, vec![]),
        Err(Iso14229Error::InvalidParam(m)) if m == "empty period_id"
    ));
    assert!(matches!(
        ReadByPeriodIdData::try_from(&[0x02]),
        Err(Iso14229Error::InvalidParam(m)) if m == "empty period_id"
    ));
}

#[test]
fn ddid_clone_is_equal() {
    let v = DynamicallyDefineDID::DefineByMemoryAddress {
        did: DynamicallyDID(0xF201),
        memory: (0x10, 0x1),
        others: vec![(0x1000, 0x2)],
    };
    assert_eq!(v.clone(), v);
    let w = DynamicallyDefineDID::DefineByIdentifier {
        did: DynamicallyDID(0xF202),
        source: DynamicallyMemAddr { did: 0x1234, position: 1, mem_size: 2 },
        others: vec![DynamicallyMemAddr { did: 0x5678, position: 3, mem_size: 4 }],
    };
    assert_eq!(w.clone(), w);
}

#[test]
fn ddid_clear_all() {
    let cfg = Configuration::new();
    let v = DynamicallyDefineDID::try_parse(&ddid_request(0x03, vec![]), &cfg).unwrap();
    assert_eq!(v, DynamicallyDefineDID::ClearDynamicallyDefinedDataIdentifier(None));
}

#[test]
fn ddid_clear_one() {
    let cfg = Configuration::new();
    let v = DynamicallyDefineDID::try_parse(&ddid_request(0x03, vec![0x12, 0x34]), &cfg).unwrap();
    assert_eq!(v, DynamicallyDefineDID::ClearDynamicallyDefinedDataIdentifier(Some(DynamicallyDID(0x1234))));
}

#[test]
fn ddid_clear_odd_length() {
    let cfg = Configuration::new();
    assert_eq!(
        DynamicallyDefineDID::try_parse(&ddid_request(0x03, vec![0x12]), &cfg),
        Err(Iso14229Error::InvalidDataLength { expect: 2, actual: 1 })
    );
    assert_eq!(
        DynamicallyDefineDID::request(&[0x12], Some(0x03), &cfg),
        Err(Iso14229Error::InvalidDataLength { expect: 2, actual: 1 })
    );
}

#[test]
fn ddid_memory_width_unification() {
    let cfg = Configuration::new();
    let v = DynamicallyDefineDID::DefineByMemoryAddress {
        did: DynamicallyDID(0xF201),
        memory: (0x10, 0x1),
        others: vec![(0x1000, 0x2)],
    };
    let bytes = v.to_vec(&cfg);
    assert_eq!(bytes, vec![0xF2, 0x01, 0x12, 0x00, 0x10, 0x01, 0x10, 0x00, 0x02]);
}

#[test]
fn ddid_memory_round_trip() {
    let make = || DynamicallyDefineDID::DefineByMemoryAddress {
        did: DynamicallyDID(0xF300),
        memory: (0x2000_0000, 0x400),
        others: vec![(0x10, 0x1), (0x0, 0x0), (0xFFFF_FFFF, 0x10)],
    };
    ddid_round_trip(make(), make(), 0x02);
}

#[test]
fn ddid_identifier_round_trip() {
    let make = || DynamicallyDefineDID::DefineByIdentifier {
        did: DynamicallyDID(0xF201),
        source: DynamicallyMemAddr { did: 0x1234, position: 1, mem_size: 2 },
        others: vec![DynamicallyMemAddr { did: 0x5678, position: 3, mem_size: 4 }],
    };
    let cfg = Configuration::new();
    assert_eq!(
        make().to_vec(&cfg),
        vec![0xF2, 0x01, 0x12, 0x34, 0x01, 0x02, 0x56, 0x78, 0x03, 0x04]
    );
    ddid_round_trip(make(), make(), 0x01);
    let single = || DynamicallyDefineDID::DefineByIdentifier {
        did: DynamicallyDID(0xF202),
        source: DynamicallyMemAddr { did: 0xABCD, position: 9, mem_size: 1 },
        others: vec![],
    };
    ddid_round_trip(single(), single(), 0x01);
}

#[test]
fn ddid_clear_round_trip() {
    let some = || DynamicallyDefineDID::ClearDynamicallyDefinedDataIdentifier(Some(DynamicallyDID(0xF2FF)));
    ddid_round_trip(some(), some(), 0x03);
    let none = || DynamicallyDefineDID::ClearDynamicallyDefinedDataIdentifier(None);
    ddid_round_trip(none(), none(), 0x03);
}

#[test]
fn ddid_identifier_length_errors() {
    let cfg = Configuration::new();
    assert_eq!(
        DynamicallyDefineDID::try_parse(&ddid_request(0x01, vec![0xF2, 0x01, 0x12, 0x34, 0x01]), &cfg),
        Err(Iso14229Error::InvalidDataLength { expect: 6, actual: 5 })
    );
    let trailing = vec![0xF2, 0x01, 0x12, 0x34, 0x01, 0x02, 0x56, 0x78, 0x03, 0x04, 0xAA, 0xBB];
    assert_eq!(
        DynamicallyDefineDID::try_parse(&ddid_request(0x01, trailing), &cfg),
        Err(Iso14229Error::InvalidDataLength { expect: 14, actual: 12 })
    );
}

#[test]
fn ddid_memory_errors() {
    let cfg = Configuration::new();
    assert_eq!(
        DynamicallyDefineDID::try_parse(&ddid_request(0x02, vec![0xF2, 0x01, 0x11]), &cfg),
        Err(Iso14229Error::InvalidDataLength { expect: 4, actual: 3 })
    );
    assert!(matches!(
        DynamicallyDefineDID::try_parse(&ddid_request(0x02, vec![0xF2, 0x01, 0x01, 0x10, 0x20]), &cfg),
        Err(Iso14229Error::InvalidParam(_))
    ));
    assert_eq!(
        DynamicallyDefineDID::try_parse(&ddid_request(0x02, vec![0xF2, 0x01, 0x12, 0x00]), &cfg),
        Err(Iso14229Error::InvalidDataLength { expect: 6, actual: 4 })
    );
    assert_eq!(
        DynamicallyDefineDID::try_parse(&ddid_request(0x02, vec![0xF2, 0x01, 0x11, 0x10, 0x20, 0x30]), &cfg),
        Err(Iso14229Error::InvalidDataLength { expect: 7, actual: 6 })
    );
}

#[test]
fn ddid_parse_service_and_code_errors() {
    let cfg = Configuration::new();
    let no_sub = Request { service: Service::DynamicalDefineDID, sub_func: None, data: vec![] };
    assert_eq!(
        DynamicallyDefineDID::try_parse(&no_sub, &cfg),
        Err(Iso14229Error::ServiceError(Service::DynamicalDefineDID))
    );
    let other = Request { service: Service::TesterPresent, sub_func: Some(SubFunction::new(3, false)), data: vec![] };
    assert_eq!(
        DynamicallyDefineDID::try_parse(&other, &cfg),
        Err(Iso14229Error::ServiceError(Service::TesterPresent))
    );
    assert!(matches!(
        DynamicallyDefineDID::try_parse(&ddid_request(0x04, vec![]), &cfg),
        Err(Iso14229Error::InvalidParam(_))
    ));
}

#[test]
fn ddid_request_checks() {
    let cfg = Configuration::new();
    assert_eq!(
        DynamicallyDefineDID::request(&[], None, &cfg),
        Err(Iso14229Error::SubFunctionError(Service::DynamicalDefineDID))
    );
    assert!(matches!(DynamicallyDefineDID::request(&[], Some(0x00), &cfg), Err(Iso14229Error::InvalidParam(_))));
    assert_eq!(
        DynamicallyDefineDID::request(&[0xF2, 0x01, 0x12, 0x34, 0x01], Some(0x01), &cfg),
        Err(Iso14229Error::InvalidDataLength { expect: 6, actual: 5 })
    );
    assert_eq!(
        DynamicallyDefineDID::request(&[0xF2, 0x01, 0x11], Some(0x02), &cfg),
        Err(Iso14229Error::InvalidDataLength { expect: 4, actual: 3 })
    );
    let req = DynamicallyDefineDID::request(&[0xF2, 0x01], Some(0x83), &cfg).unwrap();
    assert_eq!(req.service, Service::DynamicalDefineDID);
    assert_eq!(req.sub_func, Some(SubFunction::new(0x03, true)));
    assert_eq!(req.data, vec![0xF2, 0x01]);
    assert_eq!(
        DynamicallyDefineDID::try_parse(&req, &cfg),
        Ok(DynamicallyDefineDID::ClearDynamicallyDefinedDataIdentifier(Some(DynamicallyDID(0xF201))))
    );
}

#[test]
fn definition_type_codes() {
    assert_eq!(DefinitionType::try_from_code(1), Ok(DefinitionType::DefineByIdentifier));
    assert_eq!(DefinitionType::try_from_code(2).unwrap().code(), 2);
    assert!(matches!(DefinitionType::try_from_code(0), Err(Iso14229Error::InvalidParam(_))));
}

#[test]
fn tester_present_empty_payload() {
    let cfg = Configuration::new();
    let req = TesterPresent::request(&[], Some(0x00), &cfg).unwrap();
    assert_eq!(req.service, Service::TesterPresent);
    assert_eq!(req.sub_func, Some(SubFunction::new(0x00, false)));
    assert!(req.data.is_empty());
    let v = TesterPresent::try_parse(&req, &cfg).unwrap();
    assert_eq!(v, TesterPresent { data: vec![] });
    assert_eq!(v.to_vec(&cfg), Vec::<u8>::new());
    let quiet = TesterPresent::request(&[], Some(0x80), &cfg).unwrap();
    assert_eq!(quiet.sub_func, Some(SubFunction::new(0x00, true)));
}

#[test]
fn tester_present_rejects_payload() {
    let cfg = Configuration::new();
    assert_eq!(
        TesterPresent::request(&[0x00], Some(0x00), &cfg),
        Err(Iso14229Error::InvalidDataLength { expect: 0, actual: 1 })
    );
    let req = Request { service: Service::TesterPresent, sub_func: Some(SubFunction::new(0, false)), data: vec![0x00] };
    assert_eq!(
        TesterPresent::try_parse(&req, &cfg),
        Err(Iso14229Error::InvalidDataLength { expect: 0, actual: 1 })
    );
}

#[test]
fn tester_present_other_errors() {
    let cfg = Configuration::new();
    assert_eq!(
        TesterPresent::request(&[], None, &cfg),
        Err(Iso14229Error::SubFunctionError(Service::TesterPresent))
    );
    assert!(matches!(TesterPresent::request(&[], Some(0x01), &cfg), Err(Iso14229Error::InvalidParam(_))));
    let no_sub = Request { service: Service::TesterPresent, sub_func: None, data: vec![] };
    assert_eq!(TesterPresent::try_parse(&no_sub, &cfg), Err(Iso14229Error::ServiceError(Service::TesterPresent)));
}

#[test]
fn service_ids() {
    assert_eq!(Service::ReadDataByPeriodId.id(), 0x2A);
    assert_eq!(Service::DynamicalDefineDID.id(), 0x2C);
    assert_eq!(Service::TesterPresent.id(), 0x3E);
}
