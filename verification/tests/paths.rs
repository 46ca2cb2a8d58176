use unlha_uae::amiberry::Amiberry;
use unlha_uae::emutrait::Emu;
use unlha_uae::fileinfo::FileInfo;
use unlha_uae::fileinfo::RawHeader;
use unlha_uae::fileinfo::Timestamp;
use unlha_uae::fileinfo::parse_file_info;
use unlha_uae::noemu::NoEmu;

fn file_entry(comps: &[&[u8]]) -> FileInfo {
    FileInfo {
        path_components: comps.iter().map(|c| c.to_vec()).collect(),
        comment: None,
        protection_bits: 0,
        is_directory: false,
        timestamp: Timestamp::Absent,
    }
}

#[test]
fn test_nocase() {
    let mut a = Amiberry::new(String::new());
    let p1 = a.get_host_path(&file_entry(&[b"Dir", b"File.txt"]));
    let p2 = a.get_host_path(&file_entry(&[b"DIR", b"file.TXT"]));
    assert_eq!(p1, p2);
}

#[test]
fn directory_prefix_folds_to_first_seen_casing() {
    let mut a = Amiberry::new(String::new());
    let p1 = a.get_host_path(&file_entry(&[b"Games", b"One"]));
    let p2 = a.get_host_path(&file_entry(&[b"GAMES", b"Two"]));
    assert_eq!(p1, "Games/One");
    assert_eq!(p2, "Games/Two");
}

#[test]
fn leaf_names_fold_like_directories() {
    let mut a = Amiberry::new(String::new());
    let p1 = a.get_host_path(&file_entry(&[b"readme"]));
    let p2 = a.get_host_path(&file_entry(&[b"README"]));
    assert_eq!(p1, "readme");
    assert_eq!(p2, "readme");
}

#[test]
fn second_resolution_keeps_recorded_casing() {
    let mut a = Amiberry::new(String::new());
    let first = a.get_host_path(&file_entry(&[b"MiXeD", b"CaSe"]));
    let second = a.get_host_path(&file_entry(&[b"mixed", b"case"]));
    let third = a.get_host_path(&file_entry(&[b"MIXED", b"CASE"]));
    assert_eq!(first, "MiXeD/CaSe");
    assert_eq!(second, first);
    assert_eq!(third, first);
}

#[test]
fn reserved_bytes_are_encoded_in_paths() {
    let mut a = Amiberry::new(String::from("root"));
    let p = a.get_host_path(&file_entry(&[b"a*b", b"c?d"]));
    assert_eq!(p, "root/a%2ab/c%3fd");
}

#[test]
fn level1_game_entry_resolves_without_metadata() {
    let mut path_block = vec![0x02u8];
    path_block.extend_from_slice(b"GAMES");
    path_block.push(0xff);
    path_block.extend_from_slice(b"Arcade");
    path_block.push(0xff);
    let header = RawHeader {
        level: 1,
        filename: b"Pac-Man".to_vec(),
        extra_headers: vec![path_block],
        protection_bits: 0,
        timestamp: Timestamp::Absent,
    };
    let info = parse_file_info(&header).unwrap();
    assert!(!Amiberry::needs_metadata(&info));
    let mut a = Amiberry::new(String::from("root"));
    assert_eq!(a.get_host_path(&info), "root/GAMES/Arcade/Pac-Man");
    assert!(matches!(a.write_metadata(&info), Ok(None)));
}

#[test]
fn noemu_keeps_raw_names_and_casing() {
    let mut n = NoEmu::new(String::from("t"));
    assert_eq!(n.get_host_path(&file_entry(&[b"a*b"])), "t/a*b");
    assert_eq!(n.get_host_path(&file_entry(&[b"Dir", b"F"])), "t/Dir/F");
    assert_eq!(n.get_host_path(&file_entry(&[b"DIR", b"F"])), "t/DIR/F");
}
