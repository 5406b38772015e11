use ota_update::checksum::record_checksum;
use ota_update::ota::{Ota, OtaConfig, OtaError, Slot, RECORD_SIZE};
use ota_update::storage::Storage;

fn test_config() -> OtaConfig {
    OtaConfig {
        record_offset_0: 0xd000,
        record_offset_1: 0xe000,
        image_offset_0: 0x10000,
        image_offset_1: 0x20000,
        image_capacity: 0x10000,
    }
}

fn fresh_ota() -> Ota {
    let storage = Storage::new(0x30000);
    Ota::new(storage, test_config())
}

#[test]
fn checksum_reference_value() {
    // The checksum over the bytes [0x05, 0x00, 0x00, 0x00] with the
    // store's parameters (width 32, poly 0x04C11DB7, reflected in and
    // out, init 0, final XOR 0xFFFFFFFF), checked against an
    // independently computed value.
    assert_eq!(record_checksum(5), 0xc8210fcd);
    assert_eq!(record_checksum(1), 0x4743989a);
    assert_eq!(record_checksum(2), 0x55f63774);
    // The checksum is not the sequence handed back unchanged.
    assert_ne!(record_checksum(5), 5);
}

#[test]
fn fresh_store_has_no_active_slot() {
    let ota = fresh_ota();
    assert_eq!(ota.current_slot(), Ok(Slot::NoSlot));
}

#[test]
fn commit_then_read_reflects_commit() {
    let mut ota = fresh_ota();
    ota.set_current_slot(Slot::Slot0).unwrap();
    assert_eq!(ota.current_slot(), Ok(Slot::Slot0));
    ota.set_current_slot(Slot::Slot1).unwrap();
    assert_eq!(ota.current_slot(), Ok(Slot::Slot1));
    ota.set_current_slot(Slot::Slot1).unwrap();
    assert_eq!(ota.current_slot(), Ok(Slot::Slot1));
    ota.set_current_slot(Slot::Slot0).unwrap();
    assert_eq!(ota.current_slot(), Ok(Slot::Slot0));
}

#[test]
fn commit_b_then_a_sequences_increase() {
    let mut ota = fresh_ota();
    assert_eq!(ota.current_slot(), Ok(Slot::NoSlot));
    ota.set_current_slot(Slot::Slot1).unwrap();
    assert_eq!(ota.current_slot(), Ok(Slot::Slot1));
    ota.set_current_slot(Slot::Slot0).unwrap();
    assert_eq!(ota.current_slot(), Ok(Slot::Slot0));
    let cfg = test_config();
    let storage = ota.free();
    let rec1 = storage.read(cfg.record_offset_1, RECORD_SIZE);
    let rec0 = storage.read(cfg.record_offset_0, RECORD_SIZE);
    // the first commit wrote sequence 1, the second sequence 2:
    // strictly increasing, and the latest one wins whichever record
    // holds it
    assert_eq!(&rec1[..4], &[1, 0, 0, 0]);
    assert_eq!(&rec0[..4], &[2, 0, 0, 0]);
}

#[test]
fn record_layout_and_checksum_bytes() {
    let mut ota = fresh_ota();
    ota.set_current_slot(Slot::Slot0).unwrap();
    let cfg = test_config();
    let storage = ota.free();
    let rec = storage.read(cfg.record_offset_0, RECORD_SIZE);
    assert_eq!(&rec[..4], &[1, 0, 0, 0]);
    // the reserved middle of the record stays erased
    for i in 4..28 {
        assert_eq!(rec[i], 0xff);
    }
    let crc = record_checksum(1).to_le_bytes();
    assert_eq!(&rec[28..32], &crc);
    // the other record was never touched
    let other = storage.read(cfg.record_offset_1, RECORD_SIZE);
    assert!(other.iter().all(|b| *b == 0xff));
}

#[test]
fn current_slot_is_idempotent() {
    let ota = fresh_ota();
    assert_eq!(ota.current_slot(), ota.current_slot());
    let mut ota = ota;
    ota.set_current_slot(Slot::Slot0).unwrap();
    let first = ota.current_slot();
    let second = ota.current_slot();
    assert_eq!(first, second);
    assert_eq!(first, Ok(Slot::Slot0));
}

#[test]
fn corrupt_record_is_reported() {
    let mut ota = fresh_ota();
    ota.set_current_slot(Slot::Slot0).unwrap();
    // clobber the checksum field of the committed record
    ota.write(0xd000 + 28, &[0, 0, 0, 0]).unwrap();
    assert_eq!(ota.current_slot(), Err(OtaError::Corrupt));
    assert_eq!(ota.set_current_slot(Slot::Slot1), Err(OtaError::Corrupt));
}

#[test]
fn write_out_of_bounds_is_rejected() {
    let mut ota = fresh_ota();
    assert_eq!(ota.write(0x2ffff, &[1, 2]), Err(OtaError::OutOfBounds));
    assert_eq!(ota.write(0x30000, &[1]), Err(OtaError::OutOfBounds));
    assert_eq!(ota.write(0x2fffe, &[1, 2]), Ok(()));
}

#[test]
fn image_writes_leave_the_active_slot_alone() {
    let mut ota = fresh_ota();
    ota.set_current_slot(Slot::Slot1).unwrap();
    ota.write(0x10000, &[7; 64]).unwrap();
    assert_eq!(ota.current_slot(), Ok(Slot::Slot1));
}

#[test]
fn next_slot_alternates() {
    assert_eq!(Slot::NoSlot.next(), Slot::Slot0);
    assert_eq!(Slot::Slot0.next(), Slot::Slot1);
    assert_eq!(Slot::Slot1.next(), Slot::Slot0);
    assert_eq!(Slot::Slot0.number(), 0);
    assert_eq!(Slot::Slot1.number(), 1);
}
