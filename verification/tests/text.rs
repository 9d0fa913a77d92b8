use rust_term_console::text::{is_blank, parse_u16, parse_u32, split_lines_bytes, trimmed, u32_to_string, ParseIntError};

#[test]
fn parse_matches_std() {
    for s in ["", "+", "-", "0", "+7", "-7", "12a", "4294967295", "4294967296", "99999999999x", " 1", "١"] {
        let ours = parse_u32(s).map_err(|e| e.message().to_string());
        let std = s.parse::<u32>().map_err(|e| e.to_string());
        assert_eq!(ours, std, "input {s:?}");
    }
    for s in ["65535", "65536", "22", "x"] {
        let ours = parse_u16(s).map_err(|e| e.message().to_string());
        let std = s.parse::<u16>().map_err(|e| e.to_string());
        assert_eq!(ours, std, "input {s:?}");
    }
    assert_eq!(parse_u32(""), Err(ParseIntError::Empty));
}

#[test]
fn to_string_matches_std() {
    for n in [0u32, 7, 10, 115200, u32::MAX] {
        assert_eq!(u32_to_string(n), n.to_string());
        assert_eq!(parse_u32(&u32_to_string(n)), Ok(n));
    }
}

#[test]
fn trim_matches_std() {
    for s in ["", "  ", " a b ", "\u{3000}x\u{85}", "\t\n", "x"] {
        assert_eq!(trimmed(s), s.trim());
        assert_eq!(is_blank(s), s.trim().is_empty());
    }
}

#[test]
fn split_lines_matches_std() {
    for s in ["", "a", "a\n", "a\r\nb", "\n\nx\n", "x\r\n\r\n", "tail\r"] {
        let ours: Vec<Vec<u8>> = split_lines_bytes(s.as_bytes());
        let std: Vec<Vec<u8>> = s.lines().map(|l| l.as_bytes().to_vec()).collect();
        assert_eq!(ours, std, "input {s:?}");
    }
}
