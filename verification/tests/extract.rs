use block_tps::extract::{decode_timestamp, extract, TIMESTAMP_STORAGE_KEY, TIMESTAMP_WIDTH};
use block_tps::record::BlockRecord;

#[test]
fn timestamp_is_read_least_significant_byte_first() {
    let cell: Vec<u8> = vec![0x01, 0x02, 0x03, 0x04, 0x05, 0x06, 0x07, 0x08];
    assert_eq!(decode_timestamp(Some(&cell)), Some(0x0807_0605_0403_0201));
    let one: Vec<u8> = vec![1, 0, 0, 0, 0, 0, 0, 0];
    assert_eq!(decode_timestamp(Some(&one)), Some(1));
    let high: Vec<u8> = vec![0, 0, 0, 0, 0, 0, 0, 0x80];
    assert_eq!(decode_timestamp(Some(&high)), Some(1 << 63));
}

#[test]
fn timestamp_of_a_real_moment() {
    let millis: u64 = 1_700_000_000_123;
    let cell: Vec<u8> = millis.to_le_bytes().to_vec();
    assert_eq!(decode_timestamp(Some(&cell)), Some(millis));
}

#[test]
fn timestamp_takes_the_first_eight_bytes_only() {
    let mut cell: Vec<u8> = 42u64.to_le_bytes().to_vec();
    cell.extend_from_slice(&[0xff, 0xff, 0xff]);
    assert_eq!(decode_timestamp(Some(&cell)), Some(42));
}

#[test]
fn timestamp_extremes() {
    let zero: Vec<u8> = vec![0; 8];
    assert_eq!(decode_timestamp(Some(&zero)), Some(0));
    let full: Vec<u8> = vec![0xff; 8];
    assert_eq!(decode_timestamp(Some(&full)), Some(u64::MAX));
}

#[test]
fn absent_cell_gives_no_timestamp() {
    assert_eq!(decode_timestamp(None), None);
}

#[test]
fn short_cell_gives_no_timestamp() {
    let empty: Vec<u8> = Vec::new();
    assert_eq!(decode_timestamp(Some(&empty)), None);
    let seven: Vec<u8> = vec![1, 2, 3, 4, 5, 6, 7];
    assert_eq!(decode_timestamp(Some(&seven)), None);
}

#[test]
fn extract_fills_every_field() {
    let hash = [0xab; 32];
    let cell: Vec<u8> = 1_000u64.to_le_bytes().to_vec();
    let record = extract(12, hash, 3, Some(&cell));
    assert_eq!(record, BlockRecord::new(12, hash, Some(1_000), 3));
    assert_eq!(record.height, 12);
    assert_eq!(record.hash, hash);
    assert_eq!(record.timestamp, Some(1_000));
    assert_eq!(record.tx_count, 3);
}

#[test]
fn extract_keeps_a_block_without_timestamp() {
    let hash = [7; 32];
    let short: Vec<u8> = vec![1, 2, 3];
    assert_eq!(
        extract(5, hash, 2, Some(&short)),
        BlockRecord::new(5, hash, None, 2)
    );
    assert_eq!(extract(5, hash, 2, None), BlockRecord::new(5, hash, None, 2));
}

#[test]
fn extract_counts_every_entry_of_the_body() {
    let hash = [1; 32];
    assert_eq!(extract(1, hash, 0, None).tx_count, 0);
    assert_eq!(extract(1, hash, u64::MAX, None).tx_count, u64::MAX);
}

#[test]
fn extract_twice_gives_the_same_record() {
    let hash = [0x5a; 32];
    let cell: Vec<u8> = vec![9, 8, 7, 6, 5, 4, 3, 2, 1];
    let first = extract(77, hash, 4, Some(&cell));
    let second = extract(77, hash, 4, Some(&cell));
    assert_eq!(first, second);
    assert_eq!(first.timestamp, Some(0x0203_0405_0607_0809));
    let bare_first = extract(77, hash, 4, None);
    let bare_second = extract(77, hash, 4, None);
    assert_eq!(bare_first, bare_second);
}

#[test]
fn storage_key_and_width() {
    assert_eq!(TIMESTAMP_STORAGE_KEY, "0x26aa394eea5630e07c48ae0c9558cef7");
    assert_eq!(TIMESTAMP_STORAGE_KEY.as_bytes().len(), 34);
    assert_eq!(TIMESTAMP_WIDTH, 8);
}
