use unlha_uae::transcode::ascii_lower;
use unlha_uae::transcode::transcode;
use unlha_uae::transcode::transcode_raw;

#[test]
fn percent_encodes_reserved() {
    assert_eq!(transcode(b"%"), "%25");
    assert_eq!(transcode(b"\\"), "%5c");
    assert_eq!(transcode(b"*"), "%2a");
    assert_eq!(transcode(b"?"), "%3f");
    assert_eq!(transcode(b"\""), "%22");
    assert_eq!(transcode(b"/"), "%2f");
    assert_eq!(transcode(b"|"), "%7c");
    assert_eq!(transcode(b"<"), "%3c");
    assert_eq!(transcode(b">"), "%3e");
}

#[test]
fn remaps_special_glyphs() {
    assert_eq!(transcode(&[0xad]), "\u{2014}");
    assert_eq!(transcode(&[0x7f]), "\u{2592}");
    assert_eq!(transcode(&[0xaa]), "\u{fffd}");
    assert_eq!(transcode(&[0xba]), "\u{fffd}");
    assert_eq!(transcode(&[0xa4]), "\u{20ac}");
}

#[test]
fn plain_bytes_map_to_codepoints() {
    assert_eq!(transcode(b"Pac-Man"), "Pac-Man");
    assert_eq!(transcode(&[0xe4, 0x41]), "\u{e4}A");
}

#[test]
fn output_never_contains_reserved_literally() {
    let every_byte: Vec<u8> = (0u8..=255).collect();
    let out = transcode(&every_byte);
    for ch in out.chars() {
        assert!(!['\\', '*', '?', '"', '/', '|', '<', '>'].contains(&ch));
    }
    let chars: Vec<char> = out.chars().collect();
    let mut i = 0;
    while i < chars.len() {
        if chars[i] == '%' {
            assert!(i + 2 < chars.len());
            assert!(chars[i + 1].is_ascii_hexdigit());
            assert!(chars[i + 2].is_ascii_hexdigit());
            i += 3;
        } else {
            i += 1;
        }
    }
}

#[test]
fn clean_round_trip_identity() {
    let input: Vec<u8> = vec![b'A', b'z', 0x20, 0xe4, 0x31];
    let out = transcode(&input);
    let decoded: Vec<u8> = out.chars().map(|c| c as u8).collect();
    assert_eq!(decoded, input);
}

#[test]
fn remapped_bytes_lose_origin() {
    assert_eq!(transcode(&[0xaa]), transcode(&[0xba]));
}

#[test]
fn lowercase_folds_ascii_only() {
    assert_eq!(ascii_lower("AbC/D\u{2014}Z"), "abc/d\u{2014}z");
    assert_eq!(ascii_lower(""), "");
}

#[test]
fn raw_mapping_keeps_reserved() {
    assert_eq!(transcode_raw(b"a/b*"), "a/b*");
    assert_eq!(transcode_raw(&[0xff, 0xad]), "\u{ff}\u{ad}");
}

#[test]
fn escapes_decode_back() {
    let out = transcode(b"a%b*");
    assert_eq!(out, "a%25b%2a");
    let chars: Vec<char> = out.chars().collect();
    let mut decoded: Vec<u8> = Vec::new();
    let mut i = 0;
    while i < chars.len() {
        if chars[i] == '%' {
            let hex: String = chars[i + 1..i + 3].iter().collect();
            decoded.push(u8::from_str_radix(&hex, 16).unwrap());
            i += 3;
        } else {
            decoded.push(chars[i] as u8);
            i += 1;
        }
    }
    assert_eq!(decoded, b"a%b*");
}
