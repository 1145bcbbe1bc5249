use kitsune2_transport_dtn::checksum::crc32;
use kitsune2_transport_dtn::record::{
    is_pending_name, is_temp_name, new_record_stem, pending_declared, promote_name, temp_declared,
    temp_expected_len, Declared, RecordStamp,
};

#[test]
fn checksums_are_crc32_ieee() {
    assert_eq!(crc32(b""), 0);
    assert_eq!(crc32(b"123456789"), 0xcbf4_3926);
    assert_eq!(crc32(b"abc"), 0x3524_41c2);
}

#[test]
fn short_bursts_change_the_checksum() {
    let written = b"a bundle on its way".to_vec();
    for at in 0..written.len() {
        for width in 1..=4 {
            if at + width > written.len() {
                continue;
            }
            let mut corrupted = written.clone();
            for byte in corrupted[at..at + width].iter_mut() {
                *byte ^= 0xa5;
            }
            assert_ne!(crc32(&written), crc32(&corrupted));
        }
    }
}

#[test]
fn new_names_are_written_out() {
    let stamp = RecordStamp { nanos: 0x1234_5678_9abc_def0, process_id: 0xbeef, counter: 42 };
    let stem = new_record_stem(stamp, 0x0102_0304, 10);
    assert_eq!(
        stem,
        "record-0000000000000000123456789abcdef0-0000beef-000000000000002a-crc01020304-10"
    );
    let declared = Some(Declared { len: 10, checksum: Some(0x0102_0304) });
    assert_eq!(temp_declared(&format!("{stem}.tmp")), declared);
    assert_eq!(pending_declared(&format!("{stem}.bundle")), declared);
    assert_eq!(temp_expected_len(&format!("{stem}.tmp")), Some(10));
    assert_eq!(promote_name(&format!("{stem}.tmp")), format!("{stem}.bundle"));
}

#[test]
fn the_widest_stamps_fit() {
    let stamp = RecordStamp { nanos: u128::MAX, process_id: u32::MAX, counter: u64::MAX };
    assert_eq!(
        new_record_stem(stamp, u32::MAX, 0),
        "record-ffffffffffffffffffffffffffffffff-ffffffff-ffffffffffffffff-crcffffffff-0"
    );
}

#[test]
fn names_without_a_checksum_declare_a_length() {
    assert_eq!(
        temp_declared("record-deadbeef-3.tmp"),
        Some(Declared { len: 3, checksum: None })
    );
    assert_eq!(
        pending_declared("record-deadbeef-3.bundle"),
        Some(Declared { len: 3, checksum: None })
    );
    assert_eq!(
        pending_declared("record-crc01020304-3.bundle"),
        Some(Declared { len: 3, checksum: Some(0x0102_0304) })
    );
}

#[test]
fn fields_that_only_look_like_checksums_belong_to_the_id() {
    for field in ["crc", "crcx", "crc123", "crc123456789", "crcx2345678", "crcDEADBEEF", "xcrc01020304"] {
        assert_eq!(
            pending_declared(&format!("record-{field}-3.bundle")),
            Some(Declared { len: 3, checksum: None }),
            "{field}"
        );
        assert_eq!(
            temp_declared(&format!("record-x-{field}-3.tmp")),
            Some(Declared { len: 3, checksum: None }),
            "{field}"
        );
    }
}

#[test]
fn malformed_names_declare_nothing() {
    for stem in ["", "3", "x-", "x-3x", "x-crc01020304-"] {
        assert_eq!(temp_declared(&format!("record-{stem}.tmp")), None, "{stem:?}");
        assert_eq!(pending_declared(&format!("record-{stem}.bundle")), None, "{stem:?}");
    }
    assert_eq!(temp_declared("record-x-3.bundle"), None);
    assert_eq!(temp_declared("journal-x-3.tmp"), None);
    assert_eq!(pending_declared("record-x-18446744073709551616.bundle"), None);
}

#[test]
fn expected_lengths_follow_the_last_dash() {
    assert_eq!(temp_expected_len("record-a-b-12.tmp"), Some(12));
    assert_eq!(temp_expected_len("record-a-+12.tmp"), Some(12));
    assert_eq!(temp_expected_len("record-12.tmp"), None);
    assert_eq!(temp_expected_len("record-a-12.bundle"), None);
    assert_eq!(temp_expected_len("record-x-crc-3.tmp"), Some(3));
}

#[test]
fn reserved_names_are_told_apart() {
    assert!(is_pending_name("record-.bundle"));
    assert!(is_pending_name("record-x-3.bundle"));
    assert!(!is_pending_name("record-x-3.tmp"));
    assert!(!is_pending_name("record-"));
    assert!(!is_pending_name("x-record-3.bundle"));
    assert!(is_temp_name("record-.tmp"));
    assert!(!is_temp_name("record-.bundle"));
    assert!(!is_temp_name("record.tmp"));
}

#[test]
fn older_names_come_first() {
    let stem = |nanos: u128, counter: u64| {
        new_record_stem(RecordStamp { nanos, process_id: 1, counter }, 0, 1)
    };
    assert!(stem(9, 100) < stem(10, 0));
    assert!(stem(0xff, 0) < stem(0x100, 0));
    assert!(stem(5, 9) < stem(5, 10));
    assert_ne!(stem(5, 9), stem(5, 10));
}

#[test]
fn different_records_are_committed_under_different_names() {
    assert_eq!(promote_name("record-a-3.tmp"), "record-a-3.bundle");
    assert_eq!(promote_name("record-b-3.tmp"), "record-b-3.bundle");
    assert_eq!(promote_name("record-.tmp.tmp"), "record-.tmp.bundle");
}
