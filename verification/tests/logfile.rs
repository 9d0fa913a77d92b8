use rust_term_console::logfile::{log_path, LogPath};

#[test]
fn logfile_rejects_empty_path() {
    assert!(log_path("   ").is_err());
    assert_eq!(log_path("   ").unwrap_err(), "Enter a log file path");
}

#[test]
fn home_relative_path() {
    match log_path(" ~/logs/s.log ").unwrap() {
        LogPath::UnderHome { rest, written } => {
            assert_eq!(rest, "logs/s.log");
            assert_eq!(written, "~/logs/s.log");
        }
        other => panic!("unexpected {other:?}"),
    }
    match log_path("/tmp/x.log").unwrap() {
        LogPath::Plain(p) => assert_eq!(p, "/tmp/x.log"),
        other => panic!("unexpected {other:?}"),
    }
}
