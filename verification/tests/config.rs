use rust_term_console::config::{list_profiles, load_profile, save_profile, Profile, ProfileFile};

fn serial(port: &str, baud: u32) -> Profile {
    Profile::Serial { port_name: port.to_string(), baud_rate: baud, newline: "LF".to_string() }
}

#[test]
fn load_after_save_returns_profile() {
    let mut file = ProfileFile::new();
    save_profile(&mut file, "lab", serial("COM3", 9600));
    match load_profile(&file, "lab").unwrap() {
        Profile::Serial { port_name, baud_rate, newline } => {
            assert_eq!(port_name, "COM3");
            assert_eq!(baud_rate, 9600);
            assert_eq!(newline, "LF");
        }
        other => panic!("unexpected {other:?}"),
    }
}

#[test]
fn save_replaces_same_name() {
    let mut file = ProfileFile::new();
    save_profile(&mut file, "lab", serial("COM3", 9600));
    save_profile(&mut file, "lab", serial("COM4", 19200));
    assert_eq!(file.entries().len(), 1);
    match load_profile(&file, "lab").unwrap() {
        Profile::Serial { port_name, .. } => assert_eq!(port_name, "COM4"),
        other => panic!("unexpected {other:?}"),
    }
}

#[test]
fn missing_profile_is_an_error() {
    let file = ProfileFile::new();
    assert_eq!(load_profile(&file, "nope").unwrap_err(), "no saved profile named 'nope'");
}

#[test]
fn list_is_sorted() {
    let mut file = ProfileFile::new();
    for name in ["zeta", "alpha", "Beta", "alp", "mid"] {
        save_profile(&mut file, name, serial("p", 1));
    }
    assert_eq!(list_profiles(&file), vec!["Beta", "alp", "alpha", "mid", "zeta"]);
    assert!(list_profiles(&ProfileFile::new()).is_empty());
}

#[test]
fn other_profiles_untouched_by_save() {
    let mut file = ProfileFile::new();
    save_profile(&mut file, "a", serial("A", 1));
    save_profile(&mut file, "b", Profile::Ssh {
        host: "h".to_string(),
        port: 22,
        username: "u".to_string(),
        newline: "CRLF".to_string(),
    });
    match load_profile(&file, "a").unwrap() {
        Profile::Serial { port_name, .. } => assert_eq!(port_name, "A"),
        other => panic!("unexpected {other:?}"),
    }
}

#[test]
fn entries_keep_first_save_order() {
    let mut file = ProfileFile::new();
    let p = |b: u32| Profile::Serial { port_name: "COM1".to_string(), baud_rate: b, newline: "LF".to_string() };
    save_profile(&mut file, "zeta", p(1));
    save_profile(&mut file, "alpha", p(2));
    save_profile(&mut file, "zeta", p(3));
    let names: Vec<&str> = file.entries().iter().map(|(n, _)| n.as_str()).collect();
    assert_eq!(names, vec!["zeta", "alpha"]);
    match &file.entries()[0].1 {
        Profile::Serial { baud_rate, .. } => assert_eq!(*baud_rate, 3),
        _ => panic!("expected a serial profile"),
    }
}
