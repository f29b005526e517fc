use spdm_measurements::block::{
    block_value_range, find_measurement, measurement_record_shape, select_measurements,
    total_measurement_count, write_measurement_block, write_measurement_record_block_into_slice,
};
use spdm_measurements::buffer::{align_send_len, cleared, shift_left, write_into_slice, zero_slice};
use spdm_measurements::error::SpdmError;
use spdm_measurements::request::parse_request;
use spdm_measurements::response::{plan_response, Connection, Transport};
use spdm_measurements::signing::{build_signing_context, signing_context};
use spdm_measurements::spdm::{MeasurementInfo, Phase, SpdmVersion};
use spdm_measurements::wire::u24_le;

fn entry(index: u8, value_size: u16) -> MeasurementInfo {
    MeasurementInfo { index, value_size, value_type: 3, is_raw: false, is_tcb: false }
}

#[test]
fn u24_is_little_endian_and_bounded() {
    assert_eq!(u24_le(0x010203), Ok([3, 2, 1]));
    assert_eq!(u24_le(0), Ok([0, 0, 0]));
    assert_eq!(u24_le(0xFF_FFFF), Ok([0xFF, 0xFF, 0xFF]));
    assert_eq!(u24_le(0x100_0000), Err(SpdmError::Unspecified));
    assert_eq!(u24_le(usize::MAX), Err(SpdmError::Unspecified));
    let bytes = u24_le(70_000).unwrap();
    assert_eq!(bytes[0] as usize + 256 * bytes[1] as usize + 65536 * bytes[2] as usize, 70_000);
}

#[test]
fn write_into_slice_writes_all_or_nothing() {
    let mut out = [9u8; 5];
    assert_eq!(write_into_slice(&mut out, 2, &[1, 2, 3]), Ok(5));
    assert_eq!(out, [9, 9, 1, 2, 3]);
    assert_eq!(write_into_slice(&mut out, 3, &[7, 7, 7]), Err(SpdmError::Unspecified));
    assert_eq!(write_into_slice(&mut out, usize::MAX, &[7, 7]), Err(SpdmError::Unspecified));
    assert_eq!(write_into_slice(&mut out, 6, &[]), Err(SpdmError::Unspecified));
    assert_eq!(write_into_slice(&mut out, 5, &[]), Ok(5));
    assert_eq!(out, [9, 9, 1, 2, 3]);
}

#[test]
fn shift_left_moves_overlapping_ranges() {
    let mut buf = [1u8, 2, 3, 4, 5, 6];
    assert_eq!(shift_left(&mut buf, 2, 4), Ok(()));
    assert_eq!(buf, [3, 4, 5, 6, 5, 6]);
    assert_eq!(shift_left(&mut buf, 3, 4), Err(SpdmError::Unspecified));
    assert_eq!(shift_left(&mut buf, usize::MAX, 2), Err(SpdmError::Unspecified));
    assert_eq!(shift_left(&mut buf, 0, 6), Ok(()));
    assert_eq!(buf, [3, 4, 5, 6, 5, 6]);
}

#[test]
fn zero_slice_clears_its_range() {
    let mut buf = [7u8; 5];
    assert_eq!(zero_slice(&mut buf, 1, 3), Ok(()));
    assert_eq!(buf, [7, 0, 0, 7, 7]);
    assert_eq!(zero_slice(&mut buf, 4, 6), Err(SpdmError::Unspecified));
    assert_eq!(zero_slice(&mut buf, 3, 2), Err(SpdmError::Unspecified));
    assert_eq!(zero_slice(&mut buf, 5, 5), Ok(()));
    assert_eq!(buf, [7, 0, 0, 7, 7]);
}

#[test]
fn align_send_len_gives_the_least_multiple() {
    assert_eq!(align_send_len(4, 0), Ok(0));
    assert_eq!(align_send_len(4, 1), Ok(4));
    assert_eq!(align_send_len(4, 8), Ok(8));
    assert_eq!(align_send_len(3, 10), Ok(12));
    assert_eq!(align_send_len(1, usize::MAX), Ok(usize::MAX));
    assert_eq!(align_send_len(0, 8), Err(SpdmError::Unspecified));
    assert_eq!(align_send_len(2, usize::MAX), Err(SpdmError::Unspecified));
}

#[test]
fn measurement_count_needs_indices_that_can_name() {
    assert_eq!(total_measurement_count(&[]), Ok(0));
    assert_eq!(total_measurement_count(&[entry(1, 0), entry(0xFE, 0)]), Ok(2));
    assert_eq!(total_measurement_count(&[entry(1, 0); 254]), Ok(254));
    assert_eq!(total_measurement_count(&[entry(1, 0); 255]), Err(SpdmError::Unspecified));
    assert_eq!(total_measurement_count(&[entry(1, 0); 256]), Err(SpdmError::Unspecified));
    assert_eq!(total_measurement_count(&[entry(1, 0), entry(0, 0)]), Err(SpdmError::Unspecified));
    assert_eq!(total_measurement_count(&[entry(0xFF, 0)]), Err(SpdmError::Unspecified));
}

#[test]
fn first_of_two_measurements_with_an_index_is_found() {
    let info = [entry(1, 1), entry(2, 2), entry(2, 3)];
    assert_eq!(find_measurement(&info, 2), Some(entry(2, 2)));
    assert_eq!(find_measurement(&info, 3), None);
    assert_eq!(select_measurements(&info, 2), Ok(vec![entry(2, 2)]));
    assert_eq!(select_measurements(&info, 0), Ok(vec![]));
    assert_eq!(select_measurements(&info, 0xFF), Ok(info.to_vec()));
    assert_eq!(select_measurements(&info, 9), Err(SpdmError::InvalidRequest));
}

#[test]
fn record_shape_counts_headers_and_longest_values() {
    let info = [entry(1, 48), entry(2, 300)];
    assert_eq!(measurement_record_shape(&info, 0), Ok((0, 0)));
    assert_eq!(measurement_record_shape(&info, 2), Ok((307, 1)));
    assert_eq!(measurement_record_shape(&info, 0xFF), Ok((362, 2)));
    assert_eq!(measurement_record_shape(&info, 7), Err(SpdmError::InvalidRequest));
    assert_eq!(measurement_record_shape(&[entry(1, 65535); 255], 0xFF), Ok((255 * 65542, 255)));
    assert_eq!(
        measurement_record_shape(&[entry(1, 1); 256], 0xFF),
        Err(SpdmError::Unspecified)
    );
}

#[test]
fn block_range_leaves_room_for_the_header() {
    assert_eq!(block_value_range(&entry(1, 4), 21, 10), Ok((17, 21)));
    assert_eq!(block_value_range(&entry(1, 4), 20, 10), Err(SpdmError::Unspecified));
    assert_eq!(block_value_range(&entry(1, 4), 20, usize::MAX), Err(SpdmError::Unspecified));
    assert_eq!(block_value_range(&entry(1, 4), 20, usize::MAX - 8), Err(SpdmError::Unspecified));
}

#[test]
fn block_header_is_little_endian() {
    let raw = MeasurementInfo { is_raw: true, value_type: 0x83, ..entry(0x21, 600) };
    let value = [5u8; 600];
    let mut out = [0xEE; 620];
    let next = write_measurement_record_block_into_slice(&raw, &value, Some(515), &mut out, 3);
    assert_eq!(next, Ok(3 + 7 + 515));
    assert_eq!(&out[..3], &[0xEE; 3]);
    assert_eq!(&out[3..10], &[0x21, 0x01, 0x06, 0x02, 0x83, 0x03, 0x02]);
    assert_eq!(&out[10..610], &value[..]);
    assert_eq!(&out[610..], &[0xEE; 10]);
}

#[test]
fn block_that_does_not_fit_is_not_written() {
    let mut out = [0xEE; 10];
    let short = write_measurement_block(&entry(1, 4), &[1, 2, 3, 4], Some(2), &mut out);
    assert_eq!(short, Err(SpdmError::Unspecified));
    assert_eq!(out, [0xEE; 10]);
    let late =
        write_measurement_record_block_into_slice(&entry(1, 3), &[1, 2, 3], Some(2), &mut out, 1);
    assert_eq!(late, Err(SpdmError::Unspecified));
    assert_eq!(out, [0xEE; 10]);
}

#[test]
fn what_a_provider_left_stays_in_the_buffer() {
    let mut out = [0xEE; 11];
    let long = write_measurement_block(&entry(1, 3), &[1, 2, 3], Some(4), &mut out);
    assert_eq!(long, Err(SpdmError::Unspecified));
    assert_eq!(out, [0xEE, 0xEE, 0xEE, 0xEE, 0xEE, 0xEE, 0xEE, 1, 2, 3, 0xEE]);
    let mut out = [0xEE; 11];
    let failed =
        write_measurement_record_block_into_slice(&entry(1, 3), &[4, 5, 6], None, &mut out, 1);
    assert_eq!(failed, Err(SpdmError::Unspecified));
    assert_eq!(out, [0xEE, 0xEE, 0xEE, 0xEE, 0xEE, 0xEE, 0xEE, 0xEE, 4, 5, 6]);
    let mut out = [0xEE; 11];
    assert_eq!(write_measurement_block(&entry(1, 3), &[1, 2, 3], Some(2), &mut out), Ok(9));
    assert_eq!(out, [1, 1, 5, 0, 3, 2, 0, 1, 2, 3, 0xEE]);
}

#[test]
fn value_that_the_size_field_cannot_count_is_refused() {
    let value = vec![1u8; 65535];
    let mut out = vec![0u8; 65542];
    let most = write_measurement_block(&entry(1, 65535), &value, Some(65532), &mut out);
    assert_eq!(most, Ok(65539));
    assert_eq!(&out[..7], &[1, 1, 0xFF, 0xFF, 3, 0xFC, 0xFF]);
    let over = write_measurement_block(&entry(1, 65535), &value, Some(65533), &mut out);
    assert_eq!(over, Err(SpdmError::Unspecified));
}

#[test]
fn request_is_read_field_by_field() {
    let mut req = vec![0x13, 0xE0, 0x07, 0x42];
    req.extend((0..32).map(|i| i as u8));
    req.push(0xF3);
    req.extend_from_slice(&[8, 7, 6, 5, 4, 3, 2, 1, 99, 99]);
    let request =
        parse_request(Phase::AfterAlgorithms, SpdmVersion::V13, 0b1000, &req).ok().unwrap();
    let nonce: Vec<u8> = (0..32).collect();
    assert_eq!(request.meas_op, 0x42);
    assert!(request.signature_requested);
    assert_eq!(request.slot_id, 3);
    assert_eq!(request.requester_nonce.unwrap().to_vec(), nonce);
    assert_eq!(request.requester_context, Some([8, 7, 6, 5, 4, 3, 2, 1]));
    assert_eq!(request.spdm_len, 45);
}

#[test]
fn request_without_a_signature_has_no_slot() {
    let request = parse_request(Phase::Authenticated, SpdmVersion::V10, 0, &[0x10, 0xE0, 6, 1])
        .ok()
        .unwrap();
    assert!(!request.signature_requested);
    assert_eq!(request.slot_id, 0);
    assert_eq!(request.requester_nonce, None);
    assert_eq!(request.requester_context, None);
    assert_eq!(request.spdm_len, 4);
}

#[test]
fn plan_knows_the_longest_message() {
    let connection =
        Connection { phase: Phase::AfterDigests, version: SpdmVersion::V14, asym_algo: 1 };
    let transport = Transport { header_size: 4, send_len_alignment: 4, data_transfer_size: 64 };
    let mut req = vec![0x14, 0xE0, 0x01, 0xFF];
    req.extend_from_slice(&[0; 41]);
    let info = [entry(1, 48), entry(2, 300)];
    let plan = plan_response(&connection, &transport, 1, &info, &req).ok().unwrap();
    assert_eq!(plan.max_spdm_len, 2 + 6 + 362 + 32 + 2 + 8 + 96);
    assert_eq!(plan.entries, info.to_vec());
    assert_eq!(plan.total_number_of_measurement, 0);
}

#[test]
fn versions_and_phases_are_ordered() {
    assert_eq!(SpdmVersion::V10.to_u8(), 0x10);
    assert_eq!(SpdmVersion::V14.to_u8(), 0x14);
    assert!(!Phase::NotStarted.negotiated());
    assert!(!Phase::AfterVersion.negotiated());
    assert!(!Phase::AfterCapabilities.negotiated());
    assert!(Phase::AfterAlgorithms.negotiated());
    assert!(Phase::Authenticated.negotiated());
}

#[test]
fn signing_contexts_name_version_and_operation() {
    let versions = [
        (SpdmVersion::V10, "1.0.*"),
        (SpdmVersion::V11, "1.1.*"),
        (SpdmVersion::V12, "1.2.*"),
        (SpdmVersion::V13, "1.3.*"),
        (SpdmVersion::V14, "1.4.*"),
    ];
    for (version, text) in versions {
        let mut expected = format!("dmtf-spdm-v{}", text).repeat(4).into_bytes();
        expected.extend_from_slice(&[0; 6]);
        expected.extend_from_slice("responder-measurements signing".as_bytes());
        assert_eq!(signing_context(version).to_vec(), expected);
    }
}

#[test]
fn different_values_make_different_records() {
    let info = [entry(1, 3), entry(2, 3)];
    let write = |entry: &MeasurementInfo, value: &[u8], out: &mut [u8], offset: usize| {
        let mut left = [0u8; 3];
        left[..value.len()].copy_from_slice(value);
        write_measurement_record_block_into_slice(entry, &left, Some(value.len()), out, offset)
            .unwrap()
    };
    let record = |first: &[u8], second: &[u8]| {
        let mut out = [0u8; 20];
        let next = write(&info[0], first, &mut out, 0);
        let end = write(&info[1], second, &mut out, next);
        out[..end].to_vec()
    };
    assert_ne!(record(&[1, 2], &[3]), record(&[1], &[2, 3]));
    assert_ne!(record(&[1, 2], &[3]), record(&[1, 3], &[2]));
    assert_eq!(record(&[], &[]), [1, 1, 3, 0, 3, 0, 0, 2, 1, 3, 0, 3, 0, 0]);
}

#[test]
fn signing_context_takes_any_five_bytes() {
    let ver = [0x00, 0x80, 0xFF, 0x7F, 0x2A];
    let context = build_signing_context(&ver);
    for i in 0..4 {
        assert_eq!(&context[16 * i..16 * i + 11], "dmtf-spdm-v".as_bytes());
        assert_eq!(&context[16 * i + 11..16 * i + 16], &ver);
    }
    assert_eq!(&context[64..70], &[0; 6]);
    assert_eq!(&context[70..], "responder-measurements signing".as_bytes());
}

#[test]
fn cleared_buffer_keeps_its_length() {
    assert_eq!(cleared(vec![1, 2, 3]), vec![0, 0, 0]);
    assert_eq!(cleared(vec![]), Vec::<u8>::new());
}

#[test]
fn slots_are_looked_at_last() {
    let mut req = vec![0x12, 0xE0, 0x01, 0x01];
    req.extend_from_slice(&[0; 32]);
    req.push(2);
    for slots in [0, 0b100, 0xFF] {
        let short = parse_request(Phase::AfterAlgorithms, SpdmVersion::V12, slots, &req[..36]);
        assert_eq!(short.err(), Some(SpdmError::InvalidRequest));
        let whole = parse_request(Phase::AfterAlgorithms, SpdmVersion::V12, slots, &req);
        assert_eq!(whole.is_ok(), slots != 0);
        let unsigned = [0x12, 0xE0, 0x00, 0x01];
        assert!(parse_request(Phase::AfterAlgorithms, SpdmVersion::V12, slots, &unsigned).is_ok());
    }
}
