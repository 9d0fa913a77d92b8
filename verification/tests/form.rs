use rust_term_console::app::{AuthMode, ConnMode, ConnectForm, ConnectTarget};
use rust_term_console::config::{self, Profile, ProfileFile};
use rust_term_console::connection::NewlineMode;
use rust_term_console::serial::{DataBits, FlowControl, Parity, StopBits};
use rust_term_console::ssh::SshAuth;

fn form() -> ConnectForm {
    ConnectForm::new(vec!["COM1".to_string()], vec!["lab".to_string()])
}

#[test]
fn new_form_defaults() {
    let f = form();
    assert_eq!(f.mode, ConnMode::Ssh);
    assert_eq!(f.baud, "115200");
    assert_eq!(f.ssh_port, "22");
    assert_eq!(f.parity, "none");
    assert_eq!(f.newline, NewlineMode::CrLf);
    assert_eq!(f.available_ports, vec!["COM1"]);
    assert!(f.error.is_none());
}

#[test]
fn save_requires_a_name() {
    let mut f = form();
    f.profile_name = "   ".to_string();
    assert!(f.save_profile().is_none());
    assert_eq!(f.error.as_deref(), Some("Enter a profile name before saving"));
}

#[test]
fn save_reports_bad_baud() {
    let mut f = form();
    f.mode = ConnMode::Serial;
    f.profile_name = "p".to_string();
    f.baud = "fast".to_string();
    assert!(f.save_profile().is_none());
    assert_eq!(f.error.as_deref(), Some("invalid digit found in string"));
    f.baud = "99999999999".to_string();
    assert!(f.save_profile().is_none());
    assert_eq!(f.error.as_deref(), Some("number too large to fit in target type"));
}

#[test]
fn saved_profile_loads_back_into_form() {
    let mut f = form();
    f.mode = ConnMode::Serial;
    f.serial_port = "/dev/ttyUSB0".to_string();
    f.baud = "+9600".to_string();
    f.newline = NewlineMode::Lf;
    f.profile_name = "usb".to_string();
    let p = f.save_profile().unwrap();
    let mut g = form();
    g.password = "secret".to_string();
    g.load_profile(Ok(p));
    assert_eq!(g.mode, ConnMode::Serial);
    assert_eq!(g.serial_port, "/dev/ttyUSB0");
    assert_eq!(g.baud, "9600");
    assert_eq!(g.newline, NewlineMode::Lf);
    assert_eq!(g.password, "secret");
}

#[test]
fn ssh_profile_loads() {
    let mut f = form();
    f.load_profile(Ok(Profile::Ssh {
        host: "example.org".to_string(),
        port: 2222,
        username: "me".to_string(),
        newline: "bogus".to_string(),
    }));
    assert_eq!(f.mode, ConnMode::Ssh);
    assert_eq!(f.host, "example.org");
    assert_eq!(f.ssh_port, "2222");
    assert_eq!(f.username, "me");
    assert_eq!(f.newline, NewlineMode::CrLf);
}

#[test]
fn load_failure_shows_error() {
    let mut f = form();
    f.load_profile(Err("no saved profile named 'x'".to_string()));
    assert_eq!(f.error.as_deref(), Some("no saved profile named 'x'"));
}

#[test]
fn serial_settings_from_form() {
    let mut f = form();
    f.mode = ConnMode::Serial;
    f.serial_port = "COM3".to_string();
    f.baud = "57600".to_string();
    f.data_bits = 7;
    f.parity = "even".to_string();
    f.stop_bits = 2;
    f.flow_control = "rtscts".to_string();
    match f.connect_target().unwrap() {
        ConnectTarget::Serial(c) => {
            assert_eq!(c.port_name, "COM3");
            assert_eq!(c.baud_rate, 57600);
            assert_eq!(c.data_bits, DataBits::Seven);
            assert_eq!(c.parity, Parity::Even);
            assert_eq!(c.stop_bits, StopBits::Two);
            assert_eq!(c.flow_control, FlowControl::Hardware);
            assert_eq!(c.describe(), "COM3 @ 57600");
        }
        other => panic!("unexpected {other:?}"),
    }
    f.baud = "x".to_string();
    assert_eq!(f.connect_serial().unwrap_err(), "invalid baud rate 'x'");
}

#[test]
fn ssh_settings_from_form() {
    let mut f = form();
    f.host = "h".to_string();
    f.username = "u".to_string();
    f.auth_mode = AuthMode::Key;
    f.key_path = "~/.ssh/id".to_string();
    let c = f.connect_ssh().unwrap();
    assert_eq!(c.port, 22);
    assert_eq!(c.term, "xterm-256color");
    assert_eq!((c.cols, c.rows), (120, 32));
    match &c.auth {
        SshAuth::PrivateKey { path, passphrase } => {
            assert_eq!(path, "~/.ssh/id");
            assert!(passphrase.is_none());
        }
        other => panic!("unexpected {other:?}"),
    }
    assert_eq!(c.target(), "u@h:22");
    assert_eq!(c.address(), "h:22");
    f.ssh_port = "70000".to_string();
    assert_eq!(f.connect_ssh().unwrap_err(), "invalid port '70000'");
}

#[test]
fn connect_result_sets_error() {
    let mut f = form();
    assert_eq!(f.connect::<u8>(Err("refused".to_string())), None);
    assert_eq!(f.error.as_deref(), Some("refused"));
    assert_eq!(f.connect(Ok(5u8)), Some(5));
    assert!(f.error.is_none());
}

#[test]
fn refresh_lists() {
    let mut f = form();
    f.refresh_ports(Err("no access".to_string()));
    assert!(f.available_ports.is_empty());
    f.refresh_profiles(Ok(vec!["a".to_string()]));
    assert_eq!(f.available_profiles, vec!["a"]);
    f.profile_saved(Err("disk".to_string()));
    assert_eq!(f.error.as_deref(), Some("disk"));
    let mut store = ProfileFile::new();
    config::save_profile(&mut store, "zeta", Profile::Serial {
        port_name: "COM1".to_string(),
        baud_rate: 9600,
        newline: "LF".to_string(),
    });
    config::save_profile(&mut store, "alpha", Profile::Ssh {
        host: "h".to_string(),
        port: 22,
        username: "u".to_string(),
        newline: "CRLF".to_string(),
    });
    f.profile_saved(Ok(store));
    assert!(f.error.is_none());
    assert_eq!(f.available_profiles, vec!["alpha", "zeta"]);
}
