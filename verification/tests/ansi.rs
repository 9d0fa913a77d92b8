use rust_term_console::ansi::AnsiFilter;

#[test]
fn strips_color_codes() {
    let mut f = AnsiFilter::default();
    let cleaned = f.filter(b"\x1b[1;32muser@host\x1b[0m:\x1b[34m~\x1b[0m$ ");
    assert_eq!(cleaned, b"user@host:~$ ");
}

#[test]
fn strips_osc_title_sequence() {
    let mut f = AnsiFilter::default();
    let cleaned = f.filter(b"\x1b]0;my terminal title\x07hello");
    assert_eq!(cleaned, b"hello");
}

#[test]
fn drops_bare_carriage_return() {
    let mut f = AnsiFilter::default();
    let cleaned = f.filter(b"line1\r\nline2");
    assert_eq!(cleaned, b"line1\nline2");
}

#[test]
fn handles_sequence_split_across_chunks() {
    let mut f = AnsiFilter::default();
    let mut out = f.filter(b"before\x1b[1");
    out.extend(f.filter(b";32mafter"));
    assert_eq!(out, b"beforeafter");
}

#[test]
fn chunked_and_whole_input_agree() {
    let input: &[u8] = b"a\x1b]2;title\x1b\\b\x1b[0Kc\x1bXd\r\n\x07e";
    let mut whole = AnsiFilter::new();
    let expected = whole.filter(input);
    assert_eq!(expected, b"abcd\ne");
    for split in 0..=input.len() {
        let mut f = AnsiFilter::new();
        let mut out = f.filter(&input[..split]);
        out.extend(f.filter(&input[split..]));
        assert_eq!(out, expected, "split at {split}");
    }
}

#[test]
fn osc_ended_by_string_terminator() {
    let mut f = AnsiFilter::new();
    assert_eq!(f.filter(b"\x1b]0;t\x1b\\ok"), b"ok");
}

#[test]
fn escape_inside_osc_without_backslash_stays_in_osc() {
    let mut f = AnsiFilter::new();
    assert_eq!(f.filter(b"\x1b]0;a\x1bxb\x07c"), b"c");
}

#[test]
fn two_byte_escape_is_dropped() {
    let mut f = AnsiFilter::new();
    assert_eq!(f.filter(b"x\x1b7y"), b"xy");
}

#[test]
fn control_bytes_dropped_but_tab_and_newline_kept() {
    let mut f = AnsiFilter::new();
    assert_eq!(f.filter(b"a\x00\x08\tb\nc\x7f"), b"a\tb\nc\x7f");
}

#[test]
fn plain_text_unchanged() {
    let mut f = AnsiFilter::new();
    let text = "héllo wörld\n\tend".as_bytes();
    assert_eq!(f.filter(text), text);
}

#[test]
fn empty_input_gives_empty_output() {
    let mut f = AnsiFilter::new();
    assert_eq!(f.filter(b""), b"");
}

#[test]
fn csi_waits_for_final_byte() {
    let mut f = AnsiFilter::new();
    assert_eq!(f.filter(b"\x1b[12;"), b"");
    assert_eq!(f.filter(b"34"), b"");
    assert_eq!(f.filter(b"Hz"), b"z");
}
