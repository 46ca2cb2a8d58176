use unlha_uae::UnlhaError;
use unlha_uae::fileinfo::DateTime;
use unlha_uae::fileinfo::FileInfo;
use unlha_uae::fileinfo::RawHeader;
use unlha_uae::fileinfo::Timestamp;
use unlha_uae::fileinfo::parse_file_info;

fn info_with_bits(pb: u16) -> FileInfo {
    FileInfo {
        path_components: vec![b"file".to_vec()],
        comment: None,
        protection_bits: pb,
        is_directory: false,
        timestamp: Timestamp::Absent,
    }
}

#[test]
fn test_flags() {
    let expected: &[&str; 8] = &[
        "---arwed", "----rwed", "----rwe-", "----rw-d", "----r---", "----r-ed", "--p-rwed",
        "-s--rwed",
    ];
    let bits: [u16; 8] = [0x10, 0x00, 0x01, 0x02, 0x07, 0x04, 0x20, 0x40];
    for (exp, pb) in expected.iter().zip(bits.iter()) {
        assert_eq!(*exp, &info_with_bits(*pb).get_flags());
    }
}

#[test]
fn flags_cover_both_bit_senses() {
    assert_eq!(info_with_bits(0).get_flags(), "----rwed");
    assert_eq!(info_with_bits(0x00f0).get_flags(), "hsparwed");
    assert_eq!(info_with_bits(0x00ff).get_flags(), "hspa----");
}

#[test]
fn level0_splits_path_and_comment() {
    let header = RawHeader {
        level: 0,
        filename: b"DOCS\\readme.txt\0Author notes".to_vec(),
        extra_headers: vec![],
        protection_bits: 0,
        timestamp: Timestamp::Absent,
    };
    let info = parse_file_info(&header).unwrap();
    assert_eq!(info.path_components, vec![b"DOCS".to_vec(), b"readme.txt".to_vec()]);
    assert_eq!(info.comment, Some(b"Author notes".to_vec()));
    assert!(!info.is_directory);
    assert_eq!(info.get_comment(), "Author notes");
}

#[test]
fn level0_trailing_backslash_is_directory() {
    let header = RawHeader {
        level: 0,
        filename: b"GAMES\\".to_vec(),
        extra_headers: vec![],
        protection_bits: 0,
        timestamp: Timestamp::Absent,
    };
    let info = parse_file_info(&header).unwrap();
    assert!(info.is_directory);
    assert_eq!(info.path_components, vec![b"GAMES".to_vec(), b"".to_vec()]);
}

#[test]
fn level1_reads_leaf_comment_and_path_block() {
    let mut path_block = vec![0x02u8];
    path_block.extend_from_slice(b"GAMES");
    path_block.push(0xff);
    path_block.extend_from_slice(b"Arcade");
    path_block.push(0xff);
    let header = RawHeader {
        level: 1,
        filename: b"Pac-Man\0with comment".to_vec(),
        extra_headers: vec![path_block],
        protection_bits: 0x40,
        timestamp: Timestamp::Absent,
    };
    let info = parse_file_info(&header).unwrap();
    assert_eq!(
        info.path_components,
        vec![b"GAMES".to_vec(), b"Arcade".to_vec(), b"Pac-Man".to_vec()]
    );
    assert_eq!(info.comment, Some(b"with comment".to_vec()));
    assert_eq!(info.protection_bits, 0x40);
    assert!(!info.is_directory);
}

#[test]
fn level1_empty_leaf_is_directory() {
    let mut path_block = vec![0x02u8];
    path_block.extend_from_slice(b"Sub");
    path_block.push(0xff);
    let header = RawHeader {
        level: 1,
        filename: b"\0".to_vec(),
        extra_headers: vec![path_block],
        protection_bits: 0,
        timestamp: Timestamp::Absent,
    };
    let info = parse_file_info(&header).unwrap();
    assert!(info.is_directory);
    assert_eq!(info.path_components, vec![b"Sub".to_vec()]);
}

#[test]
fn level2_reads_extension_blocks() {
    let mut name_block = vec![0x01u8];
    name_block.extend_from_slice(b"file.doc");
    let mut path_block = vec![0x02u8];
    path_block.extend_from_slice(b"Work");
    path_block.push(0xff);
    let mut comment_block = vec![0x71u8];
    comment_block.extend_from_slice(b"note");
    let header = RawHeader {
        level: 2,
        filename: vec![],
        extra_headers: vec![name_block, path_block, comment_block],
        protection_bits: 0,
        timestamp: Timestamp::Absent,
    };
    let info = parse_file_info(&header).unwrap();
    assert_eq!(info.path_components, vec![b"Work".to_vec(), b"file.doc".to_vec()]);
    assert_eq!(info.comment, Some(b"note".to_vec()));
    assert!(!info.is_directory);
}

#[test]
fn level2_without_filename_block_is_directory() {
    let mut path_block = vec![0x02u8];
    path_block.extend_from_slice(b"Only");
    path_block.push(0xff);
    let header = RawHeader {
        level: 2,
        filename: vec![],
        extra_headers: vec![path_block],
        protection_bits: 0,
        timestamp: Timestamp::Absent,
    };
    let info = parse_file_info(&header).unwrap();
    assert!(info.is_directory);
    assert_eq!(info.path_components, vec![b"Only".to_vec()]);
}

#[test]
fn unknown_level_is_unsupported_format() {
    let header = RawHeader {
        level: 3,
        filename: b"x".to_vec(),
        extra_headers: vec![],
        protection_bits: 0,
        timestamp: Timestamp::Absent,
    };
    assert!(matches!(parse_file_info(&header), Err(UnlhaError::UnsupportedFormat)));
}

#[test]
fn timestamp_rendering() {
    let mut info = info_with_bits(0);
    assert_eq!(info.get_timestamp(), "1980-01-01 00:00:00.00");
    info.timestamp = Timestamp::Naive(DateTime {
        year: 1999,
        month: 12,
        day: 31,
        hour: 23,
        minute: 59,
        second: 9,
    });
    assert_eq!(info.get_timestamp(), "1999-12-31 23:59:09.00");
    info.timestamp = Timestamp::Utc(DateTime {
        year: 2001,
        month: 2,
        day: 3,
        hour: 4,
        minute: 5,
        second: 6,
    });
    assert_eq!(info.get_timestamp(), "2001-02-03 04:05:06.00");
}

#[test]
fn level0_directory_flag_ignores_comment() {
    let header = RawHeader {
        level: 0,
        filename: b"DIR\\\0note".to_vec(),
        extra_headers: vec![],
        protection_bits: 0,
        timestamp: Timestamp::Absent,
    };
    let info = parse_file_info(&header).unwrap();
    assert!(info.is_directory);
    assert_eq!(info.comment, Some(b"note".to_vec()));
    assert_eq!(info.path_components, vec![b"DIR".to_vec(), b"".to_vec()]);
}

#[test]
fn level0_comment_ending_in_backslash_is_no_directory() {
    let header = RawHeader {
        level: 0,
        filename: b"file\0odd\\".to_vec(),
        extra_headers: vec![],
        protection_bits: 0,
        timestamp: Timestamp::Absent,
    };
    let info = parse_file_info(&header).unwrap();
    assert!(!info.is_directory);
    assert_eq!(info.comment, Some(b"odd\\".to_vec()));
    assert_eq!(info.path_components, vec![b"file".to_vec()]);
}
