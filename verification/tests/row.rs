use xs::error::Error;
use xs::item::{Item, NewItem};
use xs::row::{add, create_item, decode_stamp, encode_stamp, Record, STAMP_BYTES};

#[test]
fn stamp_is_sixteen_bytes_highest_first() {
    assert_eq!(STAMP_BYTES, 16);
    assert_eq!(encode_stamp(0), vec![0u8; 16]);
    assert_eq!(encode_stamp(1), 1u128.to_be_bytes().to_vec());
    assert_eq!(encode_stamp(0x0102), vec![0, 0, 0, 0, 0, 0, 0, 0, 0, 0, 0, 0, 0, 0, 1, 2]);
    assert_eq!(encode_stamp(u128::MAX), vec![0xffu8; 16]);
    assert_eq!(
        encode_stamp(1_700_000_000_123),
        1_700_000_000_123u128.to_be_bytes().to_vec()
    );
}

#[test]
fn stamp_reads_back_what_was_written() {
    for stamp in [0u128, 1, 255, 256, 1_700_000_000_123, u64::MAX as u128, u128::MAX - 1, u128::MAX] {
        assert_eq!(decode_stamp(&encode_stamp(stamp)), Some(stamp));
        assert_eq!(decode_stamp(&stamp.to_be_bytes().to_vec()), Some(stamp));
    }
}

#[test]
fn stamps_sort_as_their_bytes_do() {
    let stamps = [0u128, 1, 255, 256, 257, 65_535, 65_536, 1_700_000_000_123, 1_700_000_000_124, u64::MAX as u128, u64::MAX as u128 + 1, u128::MAX - 1, u128::MAX];
    for a in stamps {
        for b in stamps {
            assert_eq!(a.cmp(&b), encode_stamp(a).cmp(&encode_stamp(b)), "{} {}", a, b);
        }
    }
}

#[test]
fn stamp_of_another_length_is_none() {
    assert_eq!(decode_stamp(&vec![]), None);
    assert_eq!(decode_stamp(&vec![1u8; 15]), None);
    assert_eq!(decode_stamp(&vec![1u8; 17]), None);
    assert_eq!(decode_stamp(&vec![1u8; 8]), None);
}

fn request() -> NewItem {
    NewItem {
        topic: "in".to_string(),
        attribute: Some("request".to_string()),
        source_id: Some(2),
        parent_id: None,
        payload: Some("ping".to_string()),
        secondary: None,
        status: -3,
    }
}

#[test]
fn add_writes_the_columns_of_the_item() {
    assert_eq!(
        add(request(), 258),
        Record {
            topic: "in".to_string(),
            attribute: Some("request".to_string()),
            stamp: vec![0, 0, 0, 0, 0, 0, 0, 0, 0, 0, 0, 0, 0, 0, 1, 2],
            source_id: Some(2),
            parent_id: None,
            payload: Some("ping".to_string()),
            secondary: None,
            status: -3,
        }
    );
}

#[test]
fn create_item_reads_back_what_add_wrote() {
    assert_eq!(
        create_item(11, add(request(), 1_700_000_000_123)),
        Ok(Item {
            id: 11,
            topic: "in".to_string(),
            attribute: Some("request".to_string()),
            stamp: 1_700_000_000_123,
            source_id: Some(2),
            parent_id: None,
            payload: Some("ping".to_string()),
            secondary: None,
            status: -3,
        })
    );
}

#[test]
fn create_item_rejects_a_row_that_holds_no_item() {
    let mut record = add(request(), 5);
    record.stamp.pop();
    assert_eq!(create_item(1, record), Err(Error::Store));
    let mut record = add(request(), 5);
    record.status = i32::MAX as i64 + 1;
    assert_eq!(create_item(1, record), Err(Error::Store));
    let mut record = add(request(), 5);
    record.status = i32::MIN as i64 - 1;
    assert_eq!(create_item(1, record), Err(Error::Store));
    let mut record = add(request(), 5);
    record.status = i32::MIN as i64;
    assert_eq!(create_item(1, record).map(|item| item.status), Ok(i32::MIN));
}
