use spdm_measurements::error::SpdmError;
use spdm_measurements::exchange::{handle_get_measurements_req, Action, Reply};
use spdm_measurements::response::{Connection, Transport};
use spdm_measurements::signing::signing_context;
use spdm_measurements::spdm::{MeasurementInfo, Phase, SpdmVersion, MEASUREMENTS};

const NONCE: [u8; 32] = [0xA5; 32];
const SIGNATURE: [u8; 96] = [0x5A; 96];
const ASYM_ALGO: u32 = 0x80;

/// A digest that tells different inputs apart.
fn digest_of(bytes: &[u8]) -> [u8; 48] {
    let mut digest = [0u8; 48];
    for (i, byte) in bytes.iter().enumerate() {
        let slot = &mut digest[i % 48];
        *slot = slot.wrapping_mul(31).wrapping_add(*byte).wrapping_add(i as u8);
    }
    digest
}

struct Platform {
    values: Vec<(u8, Vec<u8>)>,
    reported_len: Option<usize>,
    value_fails: bool,
    signature_len: usize,
    buffer_len: Option<usize>,
    fail_at: Option<&'static str>,
    log: Vec<&'static str>,
    transcript: Vec<u8>,
    transcript_digest: Vec<u8>,
    hashed: Vec<u8>,
    signed: Vec<(u8, u32, [u8; 48])>,
    nonces_seen: Vec<Option<[u8; 32]>>,
    asked_len: usize,
    cleared: Option<Vec<u8>>,
    reset: bool,
    whole: Option<Vec<u8>>,
}

impl Platform {
    fn with_values(values: &[(u8, &[u8])]) -> Platform {
        Platform {
            values: values.iter().map(|(i, v)| (*i, v.to_vec())).collect(),
            reported_len: None,
            value_fails: false,
            signature_len: 96,
            buffer_len: None,
            fail_at: None,
            log: Vec::new(),
            transcript: Vec::new(),
            transcript_digest: Vec::new(),
            hashed: Vec::new(),
            signed: Vec::new(),
            nonces_seen: Vec::new(),
            asked_len: 0,
            cleared: None,
            reset: false,
            whole: None,
        }
    }

    fn reply(&mut self, name: &'static str, reply: Reply) -> Reply {
        self.log.push(name);
        if self.fail_at == Some(name) {
            Reply::Failed(77)
        } else {
            reply
        }
    }

    fn run(
        &mut self,
        connection: Connection,
        transport: Transport,
        slots: u8,
        info: &[MeasurementInfo],
        req: &[u8],
    ) -> Result<(Vec<u8>, usize), SpdmError> {
        let (mut exchange, mut action) =
            handle_get_measurements_req(&connection, &transport, slots, info, req)?;
        let mut sent: Vec<u8> = Vec::new();
        loop {
            let reply = match action {
                Action::AppendTranscript(bytes) => {
                    self.transcript.extend_from_slice(&bytes);
                    self.reply("append", Reply::Done)
                }
                Action::GenerateNonce => self.reply("nonce", Reply::Nonce(NONCE)),
                Action::Allocate(len) => {
                    self.asked_len = len;
                    let len = self.buffer_len.unwrap_or(len);
                    self.reply("allocate", Reply::Buffer(vec![0xEE; len]))
                }
                Action::ReadValue { index, nonce, size } => {
                    self.nonces_seen.push(nonce);
                    let value = self
                        .values
                        .iter()
                        .find(|(i, _)| *i == index)
                        .map(|(_, v)| v.clone())
                        .unwrap();
                    let len = self.reported_len.unwrap_or(value.len());
                    let reported = if self.value_fails { None } else { Some(len) };
                    let mut left = vec![0xCC; size as usize];
                    left[..value.len()].copy_from_slice(&value);
                    self.reply("value", Reply::Value(left, reported))
                }
                Action::ValidateLarge { spdm_len, capacity } => {
                    assert!(spdm_len <= capacity);
                    self.reply("validate", Reply::Done)
                }
                Action::FinalizeTranscript => {
                    let digest = digest_of(&self.transcript);
                    self.transcript_digest = digest.to_vec();
                    self.reply("finalize", Reply::Digest(digest))
                }
                Action::HashInit(context) => {
                    self.hashed = context.to_vec();
                    self.reply("hash_init", Reply::Done)
                }
                Action::HashUpdate(digest) => {
                    self.hashed.extend_from_slice(&digest);
                    self.reply("hash_update", Reply::Done)
                }
                Action::HashFinish => {
                    let digest = digest_of(&self.hashed);
                    self.reply("hash_finish", Reply::Digest(digest))
                }
                Action::Sign { slot_id, asym_algo, digest } => {
                    self.signed.push((slot_id, asym_algo, digest));
                    let len = self.signature_len;
                    self.reply("sign", Reply::Signature(SIGNATURE, len))
                }
                Action::Deliver { buf, len, spdm_len } => {
                    assert!(spdm_len <= len && len <= buf.len());
                    sent = buf[..len].to_vec();
                    self.whole = Some(buf);
                    self.reply("deliver", Reply::Done)
                }
                Action::StartLarge { buf, spdm_len } => {
                    sent = buf[..spdm_len].to_vec();
                    self.whole = Some(buf);
                    self.reply("large", Reply::Started(spdm_len))
                }
                Action::Finished { spdm_len } => return Ok((sent, spdm_len)),
                Action::Failed { error, reset_large, cleared } => {
                    self.reset = reset_large;
                    self.cleared = cleared;
                    return Err(error);
                }
            };
            action = exchange.step(reply);
        }
    }
}

fn connection(version: SpdmVersion) -> Connection {
    Connection { phase: Phase::AfterAlgorithms, version, asym_algo: ASYM_ALGO }
}

fn transport(data_transfer_size: usize) -> Transport {
    Transport { header_size: 0, send_len_alignment: 1, data_transfer_size }
}

fn entry(index: u8, value_size: u16) -> MeasurementInfo {
    MeasurementInfo { index, value_size, value_type: 0, is_raw: false, is_tcb: true }
}

fn signed_request(version: u8, op: u8, slot: u8) -> Vec<u8> {
    let mut req = vec![version, 0xE0, 0x01, op];
    req.extend_from_slice(&[0x11; 32]);
    req.push(slot);
    req
}

#[test]
fn advertised_measurement_max_does_not_force_large_response_when_actual_fits() {
    let mtu: usize = 64;
    let info = [MeasurementInfo {
        index: 0xFD,
        value_size: 300,
        value_type: 0,
        is_raw: false,
        is_tcb: true,
    }];
    let mut pal = Platform::with_values(&[(0xFD, &[0xDE, 0xAD, 0xBE, 0xEF])]);
    let req = [0x12, 0xE0, 0x00, 0xFD];

    let (resp, spdm_len) =
        pal.run(connection(SpdmVersion::V12), transport(mtu), 0, &info, &req).unwrap();

    assert!(spdm_len <= mtu);
    assert_eq!(resp[1], MEASUREMENTS);
    assert_eq!(resp[4], 1);
    assert_eq!(&resp[5..8], &(7u32 + 4).to_le_bytes()[..3]);
}

#[test]
fn unsigned_response_has_the_exact_bytes() {
    let info = [entry(3, 8), MeasurementInfo { value_type: 0x02, is_raw: true, ..entry(9, 5) }];
    let mut pal = Platform::with_values(&[(3, &[1, 2, 3]), (9, &[4, 5, 6, 7, 8])]);
    let (resp, spdm_len) = pal
        .run(connection(SpdmVersion::V11), transport(4096), 0, &info, &[0x11, 0xE0, 0x00, 0xFF])
        .unwrap();
    let mut expected = vec![0x11, 0x60, 0, 0, 2, 22, 0, 0];
    expected.extend_from_slice(&[3, 1, 6, 0, 0x00, 3, 0, 1, 2, 3]);
    expected.extend_from_slice(&[9, 1, 8, 0, 0x82, 5, 0, 4, 5, 6, 7, 8]);
    expected.extend_from_slice(&NONCE);
    expected.extend_from_slice(&[0, 0]);
    assert_eq!(resp, expected);
    assert_eq!(spdm_len, expected.len());
    assert_eq!(pal.asked_len, 8 + (7 + 8) + (7 + 5) + 32 + 2);
}

#[test]
fn unsigned_exchange_touches_neither_transcript_nor_signer() {
    let mut pal = Platform::with_values(&[(3, &[1])]);
    pal.run(connection(SpdmVersion::V12), transport(64), 0, &[entry(3, 1)], &[0x12, 0xE0, 0, 3])
        .unwrap();
    assert_eq!(pal.log, ["nonce", "allocate", "value", "deliver"]);
    assert!(pal.transcript.is_empty());
    assert!(pal.signed.is_empty());
    assert_eq!(pal.nonces_seen, [None]);
}

#[test]
fn signed_exchange_signs_request_and_response() {
    let mut pal = Platform::with_values(&[(3, &[1, 2])]);
    let req = signed_request(0x12, 3, 0x25);
    let (resp, spdm_len) = pal
        .run(connection(SpdmVersion::V12), transport(4096), 0b0010_0000, &[entry(3, 4)], &req)
        .unwrap();
    assert_eq!(
        pal.log,
        [
            "append",
            "nonce",
            "allocate",
            "value",
            "append",
            "finalize",
            "hash_init",
            "hash_update",
            "hash_finish",
            "sign",
            "deliver",
        ]
    );
    let mut unsigned = vec![0x12, 0x60, 0, 0x25, 1, 9, 0, 0, 3, 1, 5, 0, 0, 2, 0, 1, 2];
    unsigned.extend_from_slice(&NONCE);
    unsigned.extend_from_slice(&[0, 0]);
    let mut whole = unsigned.clone();
    whole.extend_from_slice(&SIGNATURE);
    assert_eq!(resp, whole);
    assert_eq!(spdm_len, whole.len());
    assert_eq!(pal.transcript, [req.clone(), unsigned].concat());
    let to_sign = [signing_context(SpdmVersion::V12).to_vec(), pal.transcript_digest].concat();
    assert_eq!(pal.hashed, to_sign);
    assert_eq!(pal.signed, [(5, ASYM_ALGO, digest_of(&to_sign))]);
    assert_eq!(pal.nonces_seen, [Some([0x11; 32])]);
}

#[test]
fn bytes_after_a_request_stay_out_of_the_transcript() {
    let mut pal = Platform::with_values(&[]);
    let req = signed_request(0x12, 0, 0);
    let longer = [req.clone(), vec![9, 9, 9]].concat();
    pal.run(connection(SpdmVersion::V12), transport(4096), 1, &[entry(3, 4)], &longer).unwrap();
    assert_eq!(&pal.transcript[..req.len()], &req[..]);
    assert_eq!(&pal.transcript[req.len()..req.len() + 2], &[0x12, 0x60]);
}

#[test]
fn count_query_reports_only_the_count() {
    let info = [entry(3, 8), entry(9, 5)];
    let mut pal = Platform::with_values(&[]);
    let (resp, spdm_len) = pal
        .run(connection(SpdmVersion::V10), transport(64), 0, &info, &[0x10, 0xE0, 0x00, 0x00])
        .unwrap();
    assert_eq!(&resp[..8], &[0x10, 0x60, 2, 0, 0, 0, 0, 0]);
    assert_eq!(&resp[8..40], &NONCE);
    assert_eq!(spdm_len, 42);
    assert_eq!(pal.log, ["nonce", "allocate", "deliver"]);
}

#[test]
fn all_of_no_measurements_is_an_empty_record() {
    let mut pal = Platform::with_values(&[]);
    let (resp, _) = pal
        .run(connection(SpdmVersion::V12), transport(64), 0, &[], &[0x12, 0xE0, 0x00, 0xFF])
        .unwrap();
    assert_eq!(&resp[..8], &[0x12, 0x60, 0, 0, 0, 0, 0, 0]);
}

#[test]
fn requester_context_comes_back_from_version_1_3_on() {
    for (version, byte) in [(SpdmVersion::V13, 0x13), (SpdmVersion::V14, 0x14)] {
        let mut pal = Platform::with_values(&[(3, &[1])]);
        let mut req = vec![byte, 0xE0, 0x00, 3];
        req.extend_from_slice(&[1, 2, 3, 4, 5, 6, 7, 8]);
        let (resp, spdm_len) =
            pal.run(connection(version), transport(64), 0, &[entry(3, 1)], &req).unwrap();
        assert_eq!(spdm_len, 8 + 8 + 32 + 2 + 8);
        assert_eq!(&resp[50..58], &[1, 2, 3, 4, 5, 6, 7, 8]);
    }
}

#[test]
fn signed_request_of_version_1_3_carries_its_context_behind_the_slot() {
    let mut pal = Platform::with_values(&[]);
    let mut req = signed_request(0x13, 0, 7);
    req.extend_from_slice(&[8, 7, 6, 5, 4, 3, 2, 1]);
    let (resp, spdm_len) =
        pal.run(connection(SpdmVersion::V13), transport(4096), 0x80, &[], &req).unwrap();
    assert_eq!(spdm_len, 8 + 32 + 2 + 8 + 96);
    assert_eq!(&resp[42..50], &[8, 7, 6, 5, 4, 3, 2, 1]);
    assert_eq!(&resp[50..], &SIGNATURE);
    assert_eq!(&pal.transcript[..45], &req[..]);
}

#[test]
fn message_lies_behind_the_transport_bytes_and_is_padded() {
    let mut pal = Platform::with_values(&[(3, &[1, 2, 3])]);
    let transport = Transport { header_size: 5, send_len_alignment: 16, data_transfer_size: 64 };
    let (resp, spdm_len) = pal
        .run(connection(SpdmVersion::V12), transport, 0, &[entry(3, 40)], &[0x12, 0xE0, 0, 3])
        .unwrap();
    assert_eq!(pal.asked_len, 96);
    assert_eq!(spdm_len, 52);
    assert_eq!(resp.len(), 64);
    assert_eq!(&resp[..5], &[0xEE; 5]);
    assert_eq!(&resp[5..7], &[0x12, 0x60]);
    assert_eq!(&resp[57..], &[0; 7]);
}

#[test]
fn message_of_the_transfer_size_goes_in_one_piece() {
    for (size, one_piece) in [(49, true), (48, false)] {
        let mut pal = Platform::with_values(&[(3, &[])]);
        let (_, spdm_len) = pal
            .run(connection(SpdmVersion::V12), transport(size), 0, &[entry(3, 9)], &[
                0x12, 0xE0, 0, 3,
            ])
            .unwrap();
        assert_eq!(spdm_len, 49);
        assert_eq!(pal.log.contains(&"deliver"), one_piece);
        assert_eq!(pal.log.contains(&"large"), !one_piece);
    }
}

#[test]
fn long_message_is_kept_at_the_front_of_its_buffer() {
    let value: Vec<u8> = (0..100).collect();
    let mut pal = Platform::with_values(&[(3, &value)]);
    let transport = Transport { header_size: 4, send_len_alignment: 4, data_transfer_size: 64 };
    let req = signed_request(0x12, 3, 0);
    let (sent, spdm_len) =
        pal.run(connection(SpdmVersion::V12), transport, 1, &[entry(3, 100)], &req).unwrap();
    assert_eq!(spdm_len, 8 + 107 + 34 + 96);
    assert_eq!(sent.len(), spdm_len);
    assert_eq!(&sent[..8], &[0x12, 0x60, 0, 0x20, 1, 107, 0, 0]);
    assert_eq!(&sent[15..115], &value[..]);
    assert_eq!(&sent[149..], &SIGNATURE);
    assert_eq!(pal.whole.unwrap().len(), pal.asked_len);
    assert_eq!(
        pal.log,
        [
            "append",
            "nonce",
            "allocate",
            "value",
            "validate",
            "append",
            "finalize",
            "hash_init",
            "hash_update",
            "hash_finish",
            "sign",
            "large",
        ]
    );
}

#[test]
fn refused_requests_say_why() {
    let info = [entry(3, 4)];
    let run = |connection: Connection, slots: u8, req: &[u8]| {
        Platform::with_values(&[(3, &[1])]).run(connection, transport(64), slots, &info, req)
    };
    let early = Connection { phase: Phase::AfterCapabilities, ..connection(SpdmVersion::V12) };
    let v12 = connection(SpdmVersion::V12);
    let v13 = connection(SpdmVersion::V13);
    assert_eq!(run(early, 0, &[]), Err(SpdmError::UnexpectedRequest));
    assert_eq!(run(v12, 0, &[0x12]), Err(SpdmError::InvalidRequest));
    assert_eq!(run(v12, 0, &[0x11, 0xE0]), Err(SpdmError::VersionMismatch));
    assert_eq!(run(v12, 0, &[0x12, 0xE0, 0]), Err(SpdmError::InvalidRequest));
    assert_eq!(run(v12, 0, &[0x12, 0xE0, 0x08, 3]), Err(SpdmError::InvalidRequest));
    assert_eq!(run(v12, 0, &[0x12, 0xE0, 0, 4]), Err(SpdmError::InvalidRequest));
    assert_eq!(run(v13, 0, &[0x13, 0xE0, 0, 3, 1, 2, 3, 4, 5, 6, 7]), Err(SpdmError::InvalidRequest));
    let signed = signed_request(0x12, 3, 1);
    assert_eq!(run(v12, 0b10, &signed[..36]), Err(SpdmError::InvalidRequest));
    assert_eq!(run(v12, 0b01, &signed), Err(SpdmError::InvalidRequest));
    assert_eq!(run(v12, 0xFF, &signed_request(0x12, 3, 8)), Err(SpdmError::InvalidRequest));
    assert_eq!(run(v12, 0xFF, &signed_request(0x12, 3, 0x0F)), Err(SpdmError::InvalidRequest));
}

#[test]
fn unreportable_measurements_are_refused() {
    let req = [0x12, 0xE0, 0x00, 0xFF];
    let v12 = connection(SpdmVersion::V12);
    for info in [vec![entry(0, 1)], vec![entry(0xFF, 1)], vec![entry(1, 1); 255]] {
        let mut pal = Platform::with_values(&[(1, &[1])]);
        assert_eq!(pal.run(v12, transport(64), 0, &info, &req), Err(SpdmError::Unspecified));
        assert!(pal.log.is_empty());
    }
    let mut pal = Platform::with_values(&[(1, &[1])]);
    let (resp, _) = pal.run(v12, transport(4096), 0, &vec![entry(1, 1); 254], &req).unwrap();
    assert_eq!(resp[4], 254);
}

#[test]
fn failed_work_is_reported_and_clears_the_buffer() {
    let cases = [
        ("append", SpdmError::Platform(77), false),
        ("nonce", SpdmError::Unspecified, false),
        ("allocate", SpdmError::Platform(77), false),
        ("value", SpdmError::Unspecified, true),
        ("validate", SpdmError::Platform(77), true),
        ("finalize", SpdmError::Platform(77), true),
        ("hash_init", SpdmError::Unspecified, true),
        ("hash_update", SpdmError::Unspecified, true),
        ("hash_finish", SpdmError::Unspecified, true),
        ("sign", SpdmError::Unspecified, true),
        ("large", SpdmError::Platform(77), false),
    ];
    for (name, error, held) in cases {
        let mut pal = Platform::with_values(&[(3, &[1, 2])]);
        pal.fail_at = Some(name);
        let req = signed_request(0x12, 3, 0);
        let result = pal.run(connection(SpdmVersion::V12), transport(64), 1, &[entry(3, 2)], &req);
        assert_eq!(result, Err(error));
        assert_eq!(pal.cleared, if held { Some(vec![0; pal.asked_len]) } else { None });
        assert_eq!(pal.reset, name == "large");
    }
}

#[test]
fn failed_delivery_is_unspecified() {
    let mut pal = Platform::with_values(&[(3, &[1])]);
    pal.fail_at = Some("deliver");
    let result = pal.run(connection(SpdmVersion::V12), transport(64), 0, &[entry(3, 1)], &[
        0x12, 0xE0, 0, 3,
    ]);
    assert_eq!(result, Err(SpdmError::Unspecified));
    assert_eq!(pal.cleared, None);
}

#[test]
fn short_buffers_are_refused() {
    for len in [0, 7, 8, 15, 16, 17, 49, 50] {
        let mut pal = Platform::with_values(&[(3, &[1])]);
        pal.buffer_len = Some(len);
        let result = pal.run(connection(SpdmVersion::V12), transport(64), 0, &[entry(3, 1)], &[
            0x12, 0xE0, 0, 3,
        ]);
        if len < 50 {
            assert_eq!(result, Err(SpdmError::Unspecified));
            assert_eq!(pal.cleared, Some(vec![0; len]));
        } else {
            assert!(result.is_ok());
        }
    }
}

#[test]
fn value_longer_than_its_measurement_is_refused() {
    for (reported, ok) in [(4, true), (5, false), (usize::MAX, false)] {
        let mut pal = Platform::with_values(&[(3, &[1, 2, 3, 4])]);
        pal.reported_len = Some(reported);
        let result = pal.run(connection(SpdmVersion::V12), transport(64), 0, &[entry(3, 4)], &[
            0x12, 0xE0, 0, 3,
        ]);
        assert_eq!(result.is_ok(), ok);
        if !ok {
            assert_eq!(result, Err(SpdmError::Unspecified));
        }
    }
}

#[test]
fn signature_of_another_length_is_refused() {
    for len in [0, 95, 97] {
        let mut pal = Platform::with_values(&[]);
        pal.signature_len = len;
        let req = signed_request(0x12, 0, 0);
        let result = pal.run(connection(SpdmVersion::V12), transport(4096), 1, &[], &req);
        assert_eq!(result, Err(SpdmError::Unspecified));
        assert_eq!(pal.cleared, Some(vec![0; pal.asked_len]));
    }
}

#[test]
fn transport_that_cannot_be_met_is_refused() {
    let v12 = connection(SpdmVersion::V12);
    let cases = [
        Transport { send_len_alignment: 0, ..transport(64) },
        Transport { header_size: usize::MAX, ..transport(64) },
        Transport { send_len_alignment: usize::MAX, ..transport(64) },
    ];
    for transport in cases {
        let mut pal = Platform::with_values(&[(3, &[1])]);
        let result = pal.run(v12, transport, 0, &[entry(3, 1)], &[0x12, 0xE0, 0, 3]);
        assert_eq!(result, Err(SpdmError::Unspecified));
        assert_eq!(pal.log, ["nonce"]);
    }
}

#[test]
fn stray_reply_ends_an_exchange_for_good() {
    let (mut exchange, action) = handle_get_measurements_req(
        &connection(SpdmVersion::V12),
        &transport(64),
        0,
        &[entry(3, 1)],
        &[0x12, 0xE0, 0, 3],
    )
    .ok()
    .unwrap();
    assert!(matches!(action, Action::GenerateNonce));
    for reply in [Reply::Done, Reply::Nonce(NONCE)] {
        assert!(matches!(
            exchange.step(reply),
            Action::Failed { error: SpdmError::Unspecified, reset_large: false, cleared: None }
        ));
    }
}

#[test]
fn exchange_ends_within_its_bound() {
    let info = [entry(1, 1), entry(2, 1), entry(3, 1)];
    let mut pal = Platform::with_values(&[(1, &[1]), (2, &[2]), (3, &[3])]);
    let req = signed_request(0x12, 0xFF, 0);
    pal.run(connection(SpdmVersion::V12), transport(64), 1, &info, &req).unwrap();
    assert_eq!(pal.log.len(), info.len() + 11);
}

#[test]
fn what_a_measurement_left_stays_behind_the_message() {
    let mut pal = Platform::with_values(&[(3, &[1, 2, 3])]);
    let transport = Transport { header_size: 5, send_len_alignment: 16, data_transfer_size: 64 };
    pal.run(connection(SpdmVersion::V12), transport, 0, &[entry(3, 60)], &[0x12, 0xE0, 0, 3])
        .unwrap();
    let buf = pal.whole.unwrap();
    assert_eq!(buf.len(), 128);
    assert_eq!(&buf[57..64], &[0; 7]);
    assert_eq!(&buf[64..80], &[0xCC; 16]);
    assert_eq!(&buf[80..], &[0xEE; 48]);
}

#[test]
fn failed_measurement_is_unspecified() {
    let mut pal = Platform::with_values(&[(3, &[1])]);
    pal.value_fails = true;
    let result = pal.run(connection(SpdmVersion::V12), transport(64), 0, &[entry(3, 1)], &[
        0x12, 0xE0, 0, 3,
    ]);
    assert_eq!(result, Err(SpdmError::Unspecified));
    assert_eq!(pal.cleared, Some(vec![0; pal.asked_len]));
}

#[test]
fn value_of_another_size_than_asked_ends_an_exchange() {
    for size in [0, 1, 3] {
        let (mut exchange, _) = handle_get_measurements_req(
            &connection(SpdmVersion::V12),
            &transport(64),
            0,
            &[entry(3, 2)],
            &[0x12, 0xE0, 0, 3],
        )
        .ok()
        .unwrap();
        exchange.step(Reply::Nonce(NONCE));
        exchange.step(Reply::Buffer(vec![1; 51]));
        match exchange.step(Reply::Value(vec![9; size], Some(0))) {
            Action::Failed { error, cleared, .. } => {
                assert_eq!(error, SpdmError::Unspecified);
                assert_eq!(cleared, Some(vec![0; 51]));
            }
            _ => panic!("the exchange went on"),
        }
    }
}
