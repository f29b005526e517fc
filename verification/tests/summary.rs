use spdm_measurements::block::write_measurement_record_block_into_slice;
use spdm_measurements::error::SpdmError;
use spdm_measurements::spdm::MeasurementInfo;
use spdm_measurements::summary::{
    is_summary_type, measurement_summary_hash, SummaryAction, SummaryReply, SUMMARY_ALL, SUMMARY_TCB,
};

const DIGEST: [u8; 48] = [0x3C; 48];

fn entry(index: u8, is_tcb: bool) -> MeasurementInfo {
    MeasurementInfo { index, value_size: 4, value_type: 1, is_raw: false, is_tcb }
}

struct Hasher {
    fed: Vec<Vec<u8>>,
    inits: usize,
    log: Vec<&'static str>,
    fail_at: Option<&'static str>,
    short: bool,
    reported_len: Option<usize>,
}

impl Hasher {
    fn new() -> Hasher {
        Hasher {
            fed: Vec::new(),
            inits: 0,
            log: Vec::new(),
            fail_at: None,
            short: false,
            reported_len: Some(2),
        }
    }

    fn reply(&mut self, name: &'static str, reply: SummaryReply) -> SummaryReply {
        self.log.push(name);
        if self.fail_at == Some(name) {
            SummaryReply::Failed(5)
        } else {
            reply
        }
    }

    fn run(&mut self, hash_type: u8, info: &[MeasurementInfo]) -> Result<[u8; 48], SpdmError> {
        let (mut summary, mut action) = measurement_summary_hash(hash_type, info)?;
        loop {
            let reply = match action {
                SummaryAction::Allocate(len) => {
                    assert_eq!(len, 11);
                    let len = if self.short { len - 1 } else { len };
                    self.reply("allocate", SummaryReply::Buffer(vec![0xEE; len]))
                }
                SummaryAction::ReadValue { index, size } => {
                    assert_eq!(size, 4);
                    let reported = self.reported_len;
                    self.reply("value", SummaryReply::Value(vec![index, 9, 0xCC, 0xCC], reported))
                }
                SummaryAction::HashInit(block) => {
                    assert!(self.fed.is_empty());
                    self.inits += 1;
                    self.fed.push(block);
                    self.reply("init", SummaryReply::Done)
                }
                SummaryAction::HashUpdate(block) => {
                    self.fed.push(block);
                    self.reply("update", SummaryReply::Done)
                }
                SummaryAction::HashFinish => self.reply("finish", SummaryReply::Digest(DIGEST)),
                SummaryAction::Finished(digest) => return Ok(digest),
                SummaryAction::Failed(error) => return Err(error),
            };
            action = summary.step(reply);
        }
    }
}

#[test]
fn summary_of_all_measurements_digests_every_block() {
    let info = [entry(1, true), entry(2, false), entry(3, true)];
    let mut hasher = Hasher::new();
    assert_eq!(hasher.run(SUMMARY_ALL, &info), Ok(DIGEST));
    assert_eq!(
        hasher.fed,
        [
            vec![1, 1, 5, 0, 1, 2, 0, 1, 9],
            vec![2, 1, 5, 0, 1, 2, 0, 2, 9],
            vec![3, 1, 5, 0, 1, 2, 0, 3, 9],
        ]
    );
    assert_eq!(hasher.inits, 1);
}

#[test]
fn summary_of_the_trusted_base_leaves_the_rest_out() {
    let info = [entry(1, false), entry(2, true), entry(3, false), entry(4, true)];
    let mut hasher = Hasher::new();
    assert_eq!(hasher.run(SUMMARY_TCB, &info), Ok(DIGEST));
    assert_eq!(hasher.fed.iter().map(|block| block[0]).collect::<Vec<u8>>(), [2, 4]);
    assert_eq!(
        hasher.log,
        ["allocate", "value", "init", "allocate", "value", "update", "finish"]
    );
}

#[test]
fn other_summary_types_are_refused() {
    for hash_type in [0, 2, 0xFE] {
        assert_eq!(
            Hasher::new().run(hash_type, &[entry(1, true)]),
            Err(SpdmError::InvalidRequest)
        );
    }
}

#[test]
fn summary_types_are_known_without_measurements() {
    assert!(is_summary_type(SUMMARY_TCB));
    assert!(is_summary_type(SUMMARY_ALL));
    assert!(!is_summary_type(0));
    assert!(!is_summary_type(2));
}

#[test]
fn summary_of_nothing_is_refused() {
    assert_eq!(Hasher::new().run(SUMMARY_ALL, &[]), Err(SpdmError::Unspecified));
    assert_eq!(Hasher::new().run(SUMMARY_TCB, &[entry(1, false)]), Err(SpdmError::Unspecified));
}

#[test]
fn summary_of_one_measurement_needs_no_update() {
    let mut hasher = Hasher::new();
    assert_eq!(hasher.run(SUMMARY_TCB, &[entry(1, true)]), Ok(DIGEST));
    assert_eq!(hasher.log, ["allocate", "value", "init", "finish"]);
}

#[test]
fn failed_work_ends_a_summary() {
    let cases = [
        ("allocate", SpdmError::Unspecified),
        ("value", SpdmError::Unspecified),
        ("init", SpdmError::Platform(5)),
        ("update", SpdmError::Platform(5)),
        ("finish", SpdmError::Platform(5)),
    ];
    for (name, error) in cases {
        let mut hasher = Hasher::new();
        hasher.fail_at = Some(name);
        assert_eq!(hasher.run(SUMMARY_ALL, &[entry(1, true), entry(2, true)]), Err(error));
    }
}

#[test]
fn short_block_buffer_ends_a_summary() {
    let mut hasher = Hasher::new();
    hasher.short = true;
    assert_eq!(hasher.run(SUMMARY_ALL, &[entry(1, true)]), Err(SpdmError::Unspecified));
    assert_eq!(hasher.log, ["allocate"]);
}

#[test]
fn value_that_failed_or_is_too_long_ends_a_summary() {
    for reported in [Some(5), Some(usize::MAX), None] {
        let mut hasher = Hasher::new();
        hasher.reported_len = reported;
        assert_eq!(hasher.run(SUMMARY_ALL, &[entry(1, true)]), Err(SpdmError::Unspecified));
        assert!(hasher.fed.is_empty());
    }
}

#[test]
fn ended_summary_stays_ended() {
    let (mut summary, _) = measurement_summary_hash(SUMMARY_ALL, &[entry(1, true)]).ok().unwrap();
    for _ in 0..2 {
        assert!(matches!(
            summary.step(SummaryReply::Digest(DIGEST)),
            SummaryAction::Failed(SpdmError::Unspecified)
        ));
    }
}

#[test]
fn summary_of_all_measurements_digests_their_record() {
    let info = [entry(1, true), entry(2, false), entry(3, true)];
    let mut hasher = Hasher::new();
    assert_eq!(hasher.run(SUMMARY_ALL, &info), Ok(DIGEST));
    let mut record = [0u8; 33];
    let mut offset: usize = 0;
    for entry in &info {
        let value = [entry.index, 9, 0xCC, 0xCC];
        offset =
            write_measurement_record_block_into_slice(entry, &value, Some(2), &mut record, offset)
                .unwrap();
    }
    assert_eq!(hasher.fed.concat(), record[..offset].to_vec());
}
