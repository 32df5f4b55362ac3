use rollcage_file_parser::file_formats::idx::{parse_records, IdxRecord};

#[test]
fn two_records_from_32_bytes() {
    let mut input = Vec::new();
    for w in [1u32, 2, 3, 4, 0x1000_0000, 0xAABB_CCDD, 0, 0xFFFF_FFFF] {
        input.extend_from_slice(&w.to_le_bytes());
    }
    let records = parse_records(&input);
    assert_eq!(
        records,
        vec![
            IdxRecord { file_offset: 1, compressed_file_length: 2, decompressed_file_length: 3, unused: 4 },
            IdxRecord {
                file_offset: 0x1000_0000,
                compressed_file_length: 0xAABB_CCDD,
                decompressed_file_length: 0,
                unused: 0xFFFF_FFFF,
            },
        ]
    );
}

#[test]
fn trailing_partial_record_is_ignored() {
    let input = vec![0x11u8; 16 * 3 + 15];
    let records = parse_records(&input);
    assert_eq!(records.len(), 3);
    assert_eq!(records[2].unused, 0x1111_1111);
}

#[test]
fn empty_and_short_index_give_no_records() {
    assert!(parse_records(&[]).is_empty());
    assert!(parse_records(&[1u8; 15]).is_empty());
}
