use bgwm::utf16::{decode_utf16_lossy, encode_utf16, wide_null};

#[test]
fn encodes_like_std() {
    for s in ["", "abc", "Ünïcødé", "emoji 😀 here", "\u{10FFFF}\u{E000}"] {
        let expected: Vec<u16> = s.encode_utf16().collect();
        assert_eq!(encode_utf16(s), expected);
        let mut z = expected.clone();
        z.push(0);
        assert_eq!(wide_null(s), z);
    }
}

#[test]
fn decodes_like_std_lossy() {
    let cases: Vec<Vec<u16>> = vec![
        vec![],
        vec![0x41, 0x42],
        vec![0xD83D, 0xDE00],
        vec![0xD83D],
        vec![0xDE00, 0x41],
        vec![0xD83D, 0x41],
        vec![0xD83D, 0xD83D, 0xDE00],
    ];
    for units in cases {
        let expected: Vec<char> = String::from_utf16_lossy(&units).chars().collect();
        assert_eq!(decode_utf16_lossy(&units), expected);
    }
}

#[test]
fn round_trips() {
    let s = "C:\\Users\\Zoë\\😀.exe";
    let units = encode_utf16(s);
    let back: String = decode_utf16_lossy(&units).into_iter().collect();
    assert_eq!(back, s);
}
