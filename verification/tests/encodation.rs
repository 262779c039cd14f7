use edifact::buffer::{buf_new, buf_push, PendingBuf};
use edifact::context::{EncodationError, EncodationType};
use edifact::dummy::DummyLogic;
use edifact::encoder::{encode, write4};

fn buf_from(values: &[u8]) -> PendingBuf {
    let mut b = buf_new();
    for &v in values {
        buf_push(&mut b, v);
    }
    b
}

#[test]
fn test_write4_four() {
    let mut enc = DummyLogic::new(vec![], 3, -1);
    write4(&mut enc, &buf_from(&[0b10_01_00, 0b11_01_10, 0b011010, 1]));
    assert_eq!(
        enc.codewords,
        vec![0b10_01_00_11, 0b01_10_01_10, 0b10_00_00_01]
    );
}

#[test]
fn test_write4_three() {
    let mut enc = DummyLogic::new(vec![], 3, -1);
    write4(&mut enc, &buf_from(&[0b10_01_00, 0b11_01_10, 0b011010]));
    assert_eq!(
        enc.codewords,
        vec![0b10_01_00_11, 0b01_10_01_10, 0b10_00_00_00]
    );
}

#[test]
fn test_write4_two() {
    let mut enc = DummyLogic::new(vec![], 2, -1);
    write4(&mut enc, &buf_from(&[0b10_01_00, 0b11_01_10]));
    assert_eq!(enc.codewords, vec![0b10_01_00_11, 0b01_10_00_00]);
}

#[test]
fn test_write4_one() {
    let mut enc = DummyLogic::new(vec![], 1, -1);
    write4(&mut enc, &buf_from(&[0b10_01_00]));
    assert_eq!(enc.codewords, vec![0b10_01_00_00]);
}

#[test]
fn round_trip_full_group() {
    let values = [13u8, 60, 7, 42];
    let mut enc = DummyLogic::new(vec![], 3, -1);
    write4(&mut enc, &buf_from(&values));
    let cw = &enc.codewords;
    assert_eq!(cw.len(), 3);
    let expanded = [
        cw[0] >> 2,
        ((cw[0] & 0x03) << 4) | (cw[1] >> 4),
        ((cw[1] & 0x0f) << 2) | (cw[2] >> 6),
        cw[2] & 0x3f,
    ];
    assert_eq!(expanded, values);
}

#[test]
fn consumes_whole_message() {
    let mut enc = DummyLogic::new(b"ABCDEFGH".to_vec(), 10, -1);
    let r = encode(&mut enc);
    assert_eq!(r, Ok(()));
    assert!(enc.data.is_empty());
    assert_eq!(enc.consumed, b"ABCDEFGH".to_vec());
    // two full groups make six codewords, then one unlatch padding codeword
    assert_eq!(enc.codewords.len(), 7);
    assert_eq!(enc.codewords[6], 0b011111 << 2);
    assert_eq!(enc.mode, EncodationType::Ascii);
}

#[test]
fn cheap_ascii_finish() {
    let mut enc = DummyLogic::new(b"AB".to_vec(), 2, -1);
    let r = encode(&mut enc);
    assert_eq!(r, Ok(()));
    assert!(enc.codewords.is_empty());
    assert_eq!(enc.mode, EncodationType::Ascii);
    assert_eq!(enc.data, b"AB".to_vec());
    assert!(enc.consumed.is_empty());
}

#[test]
fn eod_padding_unlatch() {
    let mut enc = DummyLogic::new(vec![], 3, -1);
    let r = encode(&mut enc);
    assert_eq!(r, Ok(()));
    assert_eq!(enc.codewords, vec![0b011111 << 2]);
    assert_eq!(enc.mode, EncodationType::Ascii);
}

#[test]
fn eod_full_symbol_stays_quiet() {
    let mut enc = DummyLogic::new(vec![], 0, -1);
    let r = encode(&mut enc);
    assert_eq!(r, Ok(()));
    assert!(enc.codewords.is_empty());
    assert_eq!(enc.mode, EncodationType::Edifact);
}

#[test]
fn three_pending_appends_unlatch() {
    let mut enc = DummyLogic::new(b"ABC".to_vec(), 10, -1);
    let r = encode(&mut enc);
    assert_eq!(r, Ok(()));
    assert_eq!(enc.codewords.len(), 3);
    assert_eq!(enc.mode, EncodationType::Ascii);
    // the last codeword carries the unlatch sentinel in its low six bits
    assert_eq!(enc.codewords[2] & 0x3f, 0b011111);
}

#[test]
fn three_pending_appends_unlatch_without_room() {
    let mut enc = DummyLogic::new(b"ABC".to_vec(), 3, -1);
    let r = encode(&mut enc);
    assert_eq!(r, Ok(()));
    assert_eq!(enc.codewords.len(), 3);
    assert_eq!(enc.mode, EncodationType::Ascii);
    assert_eq!(enc.codewords[2] & 0x3f, 0b011111);
}

#[test]
fn one_pending_with_room() {
    let mut enc = DummyLogic::new(b"A".to_vec(), 10, -1);
    let r = encode(&mut enc);
    assert_eq!(r, Ok(()));
    // unlatch appended to the single pending value: two codewords
    assert_eq!(enc.codewords, vec![0b000001_01, 0b1111_0000]);
    assert_eq!(enc.mode, EncodationType::Ascii);
}

#[test]
fn illegal_character_fails() {
    let mut enc = DummyLogic::new(vec![0], 10, -1);
    let r = encode(&mut enc);
    assert_eq!(r, Err(EncodationError::IllegalEdifactCharacter));
    assert!(enc.codewords.is_empty());
    assert_eq!(enc.mode, EncodationType::Edifact);
}

#[test]
fn illegal_high_character_fails() {
    let mut enc = DummyLogic::new(vec![65, 66, 95], 10, -1);
    let r = encode(&mut enc);
    assert_eq!(r, Err(EncodationError::IllegalEdifactCharacter));
    // no group was completed before the offending character
    assert!(enc.codewords.is_empty());
}

#[test]
fn missing_capacity_fails() {
    let mut enc = DummyLogic::new(b"A".to_vec(), 0, -1);
    let r = encode(&mut enc);
    assert_eq!(r, Err(EncodationError::NotEnoughSpace));
    assert!(enc.codewords.is_empty());
    assert_eq!(enc.mode, EncodationType::Edifact);
}

#[test]
fn forced_switch_emits_unlatch() {
    let mut enc = DummyLogic::new(b"ABCDE".to_vec(), 20, 0);
    let r = encode(&mut enc);
    assert_eq!(r, Ok(()));
    // one full group, then the unlatch requested by the host's look-ahead
    assert_eq!(enc.codewords.len(), 4);
    assert_eq!(enc.codewords[3], 0b011111 << 2);
    assert_eq!(enc.mode, EncodationType::Edifact);
    assert_eq!(enc.data, b"E".to_vec());
}

#[test]
fn ascii_encoding_size_rules() {
    assert_eq!(edifact::ascii::encoding_size(b"12345"), 3);
    assert_eq!(edifact::ascii::encoding_size(&[200]), 2);
    assert_eq!(edifact::ascii::encoding_size(b"A1"), 2);
    assert_eq!(edifact::ascii::encoding_size(b"11A"), 2);
    assert_eq!(edifact::ascii::encoding_size(&[]), 0);
}
