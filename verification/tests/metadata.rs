use unlha_uae::UnlhaError;
use unlha_uae::amiberry::Amiberry;
use unlha_uae::emutrait::Emu;
use unlha_uae::fileinfo::DateTime;
use unlha_uae::fileinfo::FileInfo;
use unlha_uae::fileinfo::Timestamp;
use unlha_uae::fsuae::Fsuae;
use unlha_uae::noemu::NoEmu;

fn entry(comps: &[&[u8]], comment: Option<&[u8]>, pb: u16) -> FileInfo {
    FileInfo {
        path_components: comps.iter().map(|c| c.to_vec()).collect(),
        comment: comment.map(|c| c.to_vec()),
        protection_bits: pb,
        is_directory: false,
        timestamp: Timestamp::Absent,
    }
}

#[test]
fn protection_bits_alone_need_metadata() {
    let plain = entry(&[b"plainname"], None, 0x0001);
    assert!(Amiberry::needs_metadata(&plain));
    assert!(Fsuae::needs_metadata(&plain));
}

#[test]
fn needs_metadata_on_comment_or_reserved_byte_only() {
    assert!(!Amiberry::needs_metadata(&entry(&[b"plainname"], None, 0)));
    assert!(Amiberry::needs_metadata(&entry(&[b"plainname"], Some(b"note"), 0)));
    assert!(Amiberry::needs_metadata(&entry(&[b"dir", b"a*b"], None, 0)));
    assert!(!NoEmu::needs_metadata(&entry(&[b"a*b"], Some(b"note"), 7)));
}

#[test]
fn amiberry_record_layout() {
    let mut a = Amiberry::new(String::new());
    let info = entry(&[b"Dir", b"Nam*e"], Some(b"hello"), 0x0150);
    let w = a.write_metadata(&info).unwrap().unwrap();
    assert!(w.append);
    assert_eq!(w.path, "Dir/_UAEFSDB.___");
    let d = &w.data;
    assert_eq!(d.len(), 600);
    assert_eq!(d[0], 1);
    assert_eq!(d[1], 0);
    assert_eq!(d[2], 0);
    assert_eq!(d[3], 0x01);
    assert_eq!(d[4], 0x50);
    assert_eq!(&d[5..10], b"Nam*e");
    assert_eq!(d[10], 0);
    assert_eq!(&d[262..269], b"Nam%2ae");
    assert_eq!(d[269], 0);
    assert_eq!(&d[519..524], b"hello");
    assert_eq!(d[524], 0);
    assert_eq!(d[599], 0);
}

#[test]
fn amiberry_record_in_root_directory() {
    let mut a = Amiberry::new(String::new());
    let info = entry(&[b"leaf"], None, 0x10);
    let w = a.write_metadata(&info).unwrap().unwrap();
    assert_eq!(w.path, "_UAEFSDB.___");
    assert_eq!(&w.data[5..9], b"leaf");
}

#[test]
fn oversized_comment_overflows() {
    let mut a = Amiberry::new(String::new());
    let long = vec![b'x'; 82];
    let info = entry(&[b"f"], Some(&long), 0);
    assert!(matches!(a.write_metadata(&info), Err(UnlhaError::EncodingOverflow)));
}

#[test]
fn oversized_native_name_overflows() {
    let mut a = Amiberry::new(String::new());
    let long = vec![b'n'; 258];
    let info = entry(&[long.as_slice()], None, 1);
    assert!(matches!(a.write_metadata(&info), Err(UnlhaError::EncodingOverflow)));
}

#[test]
fn oversized_transcoded_name_overflows() {
    // 130 high bytes fit the native slot but need two encoded bytes each.
    let mut a = Amiberry::new(String::new());
    let high = vec![0xe4u8; 130];
    let info = entry(&[high.as_slice()], None, 1);
    assert!(matches!(a.write_metadata(&info), Err(UnlhaError::EncodingOverflow)));
}

#[test]
fn boundary_sizes_fit() {
    let mut a = Amiberry::new(String::new());
    let name = vec![b'n'; 257];
    let comment = vec![b'c'; 81];
    let info = entry(&[name.as_slice()], Some(&comment), 0);
    let w = a.write_metadata(&info).unwrap().unwrap();
    assert_eq!(w.data[5 + 256], b'n');
    assert_eq!(w.data[519 + 80], b'c');
}

#[test]
fn fsuae_sidecar_line() {
    let mut f = Fsuae::new(String::from("out"));
    let mut info = entry(&[b"A?B"], Some(b"note"), 0);
    info.timestamp = Timestamp::Naive(DateTime {
        year: 1999,
        month: 12,
        day: 31,
        hour: 23,
        minute: 59,
        second: 9,
    });
    let w = f.write_metadata(&info).unwrap().unwrap();
    assert!(!w.append);
    assert_eq!(w.path, "out/A%3fB.uaem");
    assert_eq!(String::from_utf8(w.data).unwrap(), "----rwed 1999-12-31 23:59:09.00 note");
}

#[test]
fn fsuae_line_without_comment_ends_with_space() {
    let mut f = Fsuae::new(String::new());
    let info = entry(&[b"x"], None, 0x0f);
    let w = f.write_metadata(&info).unwrap().unwrap();
    assert_eq!(String::from_utf8(w.data).unwrap(), "-------- 1980-01-01 00:00:00.00 ");
}

#[test]
fn fsuae_comment_is_transcoded() {
    let mut f = Fsuae::new(String::new());
    let info = entry(&[b"x"], Some(&[b'a', 0xad, b'%']), 0);
    let w = f.write_metadata(&info).unwrap().unwrap();
    assert_eq!(
        String::from_utf8(w.data).unwrap(),
        "----rwed 1980-01-01 00:00:00.00 a\u{2014}%25"
    );
}

#[test]
fn noemu_never_writes() {
    let mut n = NoEmu::new(String::from("t"));
    let info = entry(&[b"a*b"], Some(b"note"), 0xff);
    assert!(matches!(n.write_metadata(&info), Ok(None)));
}
