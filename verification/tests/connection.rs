use rust_term_console::connection::NewlineMode;

#[test]
fn newline_bytes_and_labels() {
    assert_eq!(NewlineMode::Raw.as_bytes(), b"");
    assert_eq!(NewlineMode::Lf.as_bytes(), b"\n");
    assert_eq!(NewlineMode::CrLf.as_bytes(), b"\r\n");
    assert_eq!(NewlineMode::Raw.label(), "raw");
    assert_eq!(NewlineMode::Lf.label(), "LF");
    assert_eq!(NewlineMode::CrLf.label(), "CRLF");
    assert_eq!(NewlineMode::ALL, [NewlineMode::CrLf, NewlineMode::Lf, NewlineMode::Raw]);
}

#[test]
fn newline_parse_ignores_case() {
    assert_eq!("CrLf".parse::<NewlineMode>().unwrap(), NewlineMode::CrLf);
    assert_eq!(NewlineMode::parse("LF").unwrap(), NewlineMode::Lf);
    assert_eq!(NewlineMode::parse("none").unwrap(), NewlineMode::Raw);
    assert_eq!(NewlineMode::parse("RAW").unwrap(), NewlineMode::Raw);
}

#[test]
fn newline_labels_parse_back() {
    for mode in NewlineMode::ALL {
        assert_eq!(NewlineMode::parse(mode.label()).unwrap(), mode);
    }
}

#[test]
fn newline_parse_error_names_input() {
    assert_eq!(
        NewlineMode::parse("CR").unwrap_err(),
        "unknown newline mode 'cr' (expected none|lf|crlf)"
    );
}
