use ota_update::ota::{Ota, OtaConfig, OtaError, Slot};
use ota_update::storage::Storage;
use ota_update::tiny_http::ResponseReader;
use ota_update::update::{parse_version, should_update, Updater};

fn cfg() -> OtaConfig {
    OtaConfig {
        record_offset_0: 0x100,
        record_offset_1: 0x200,
        image_offset_0: 0x1000,
        image_offset_1: 0x2000,
        image_capacity: 0x1000,
    }
}

fn fresh_ota() -> Ota {
    Ota::new(Storage::new(0x3000), cfg())
}

#[test]
fn version_decision() {
    // version resource "1" with local version 1: no update
    assert!(!should_update(b"1", 1));
    assert!(!should_update(b"1\n", 1));
    // version resource "2" with local version 1: update
    assert!(should_update(b"2", 1));
    assert!(should_update(b" 2\r\n", 1));
    // a parse failure means no update, not a fault
    assert!(!should_update(b"soon", 1));
    assert!(!should_update(b"", 1));
    assert_eq!(parse_version(b" 42 \n"), Some(42));
    assert_eq!(parse_version(b"4294967295"), Some(u32::MAX));
    assert_eq!(parse_version(b"4294967296"), None);
    assert_eq!(parse_version(b""), None);
}

#[test]
fn update_writes_image_and_commits() {
    let ota = fresh_ota();
    let mut u = Updater::new(ota, 16).unwrap();
    assert_eq!(u.target(), Slot::Slot0);
    // 40 bytes fed in fragments of 7, straddling the 16-byte flush
    // boundary twice, with a final partial block
    let image: Vec<u8> = (0u8..40).collect();
    for chunk in image.chunks(7) {
        u.handle_chunk(chunk).unwrap();
    }
    u.finish().unwrap();
    assert_eq!(u.written(), 40);
    let ota = u.free();
    assert_eq!(ota.current_slot(), Ok(Slot::Slot0));
    let storage = ota.free();
    assert_eq!(storage.read(0x1000, 40), image);
    // the rest of the image region stays erased, with no gap and no
    // overrun
    assert_eq!(storage.read(0x1000 + 40, 1)[0], 0xff);
    // the other slot's image region is untouched
    assert!(storage.read(0x2000, 0x1000).iter().all(|b| *b == 0xff));
}

#[test]
fn fragmentation_does_not_change_the_image() {
    let image: Vec<u8> = (0u8..=255).cycle().take(500).collect();
    let mut results = Vec::new();
    for size in [1usize, 3, 16, 17, 64, 500] {
        let ota = fresh_ota();
        let mut u = Updater::new(ota, 16).unwrap();
        for chunk in image.chunks(size) {
            u.handle_chunk(chunk).unwrap();
        }
        u.finish().unwrap();
        let storage = u.free().free();
        results.push(storage.read(0x1000, 500));
    }
    for r in &results {
        assert_eq!(*r, image);
    }
}

#[test]
fn second_update_targets_other_slot() {
    let ota = fresh_ota();
    let mut u = Updater::new(ota, 16).unwrap();
    assert_eq!(u.target(), Slot::Slot0);
    u.handle_chunk(&[1, 2, 3]).unwrap();
    u.finish().unwrap();
    let ota = u.free();
    assert_eq!(ota.current_slot(), Ok(Slot::Slot0));
    let mut u = Updater::new(ota, 16).unwrap();
    assert_eq!(u.target(), Slot::Slot1);
    u.handle_chunk(&[9, 9]).unwrap();
    u.finish().unwrap();
    let ota = u.free();
    assert_eq!(ota.current_slot(), Ok(Slot::Slot1));
    let storage = ota.free();
    // the first image survived the second update untouched
    assert_eq!(storage.read(0x1000, 3), vec![1, 2, 3]);
    assert_eq!(storage.read(0x2000, 2), vec![9, 9]);
}

#[test]
fn too_large_image_is_rejected() {
    let ota = fresh_ota();
    let mut u = Updater::new(ota, 16).unwrap();
    let block = vec![0xabu8; 0x1000];
    u.handle_chunk(&block).unwrap();
    assert_eq!(u.handle_chunk(&[1]), Err(OtaError::OutOfBounds));
    // the rejected chunk changed nothing; the accepted body can still
    // be committed
    u.finish().unwrap();
    let ota = u.free();
    assert_eq!(ota.current_slot(), Ok(Slot::Slot0));
}

#[test]
fn corrupt_records_block_the_update() {
    let mut ota = fresh_ota();
    ota.set_current_slot(Slot::Slot0).unwrap();
    // a corrupt record makes the store unusable before anything is
    // written
    ota.write(0x200, &[0xaa; 8]).unwrap();
    assert!(matches!(Updater::new(ota, 16), Err(OtaError::Corrupt)));
}

#[test]
fn end_to_end_over_a_synthetic_stream() {
    // the full flow: version check, then the firmware body streamed
    // through the response reader into the updater
    let mut r = ResponseReader::new(Vec::new());
    r.request_sent();
    let mut version_body = Vec::new();
    version_body.extend(r.feed(b"HTTP/1.0 200 OK\r\nContent-Length: 1\r\n\r\n2").unwrap());
    r.eof();
    assert!(should_update(&version_body, 1));

    let ota = fresh_ota();
    let mut u = Updater::new(ota, 16).unwrap();
    let target = u.target();
    let mut r = ResponseReader::new(Vec::new());
    r.request_sent();
    let firmware: Vec<u8> = (1u8..=200).collect();
    let mut stream = b"HTTP/1.0 200 OK\r\nContent-Length: 200\r\n\r\n".to_vec();
    stream.extend(&firmware);
    for chunk in stream.chunks(13) {
        let body = r.feed(chunk).unwrap();
        if !body.is_empty() {
            u.handle_chunk(&body).unwrap();
        }
    }
    r.eof();
    u.finish().unwrap();
    let ota = u.free();
    assert_eq!(ota.current_slot(), Ok(target));
    let storage = ota.free();
    assert_eq!(storage.read(0x1000, 200), firmware);
}
