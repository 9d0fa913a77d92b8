//! The connect form: the dialog's fields and what saving, loading and
//! connecting make of them. Listing ports, reading and writing the profiles
//! file and opening connections are the caller's part; the form is handed
//! their results.
use vstd::prelude::*;

pub use crate::session::Session;

use crate::config::{list_profiles, names_of, strictly_sorted, Profile, ProfileFile};
use crate::connection::{lemma_label_parses_back, newline_label, parse_newline_spec, NewlineMode};
use crate::serial::{DataBits, FlowControl, Parity, SerialConfig, StopBits};
use crate::ssh::{SshAuth, SshConfig};
use crate::text::{
    chars_eq_str, chars_of, copy_string, decimal, is_blank, parse_u16, parse_u16_spec, parse_u32,
    parse_u32_spec, trim, u32_to_string, ParseIntError, lemma_u16_string_round_trip,
    lemma_u32_string_round_trip,
};

verus! {

#[derive(Debug, Clone, Copy, PartialEq, Eq, Structural)]
pub enum ConnMode {
    Serial,
    Ssh,
}

#[derive(Debug, Clone, Copy, PartialEq, Eq, Structural)]
pub enum AuthMode {
    Password,
    Key,
    Agent,
}

/// What a connection attempt should open.
#[derive(Debug, Clone)]
pub enum ConnectTarget {
    Serial(SerialConfig),
    Ssh(SshConfig),
}

/// Everything the connect dialog needs. Lives across screens so values
/// survive a failed connection attempt.
pub struct ConnectForm {
    pub mode: ConnMode,
    pub available_ports: Vec<String>,
    pub serial_port: String,
    pub baud: String,
    pub data_bits: u8,
    pub parity: String,
    pub stop_bits: u8,
    pub flow_control: String,
    pub host: String,
    pub ssh_port: String,
    pub username: String,
    pub auth_mode: AuthMode,
    pub password: String,
    pub key_path: String,
    pub newline: NewlineMode,
    pub log_enabled: bool,
    pub log_path: String,
    pub available_profiles: Vec<String>,
    pub profile_name: String,
    pub error: Option<String>,
}

/// The data bits chosen in the form: 5, 6 or 7, anything else meaning 8.
pub open spec fn data_bits_choice(bits: u8) -> DataBits {
    if bits == 5 {
        DataBits::Five
    } else if bits == 6 {
        DataBits::Six
    } else if bits == 7 {
        DataBits::Seven
    } else {
        DataBits::Eight
    }
}

/// The parity chosen in the form: `odd`, `even`, anything else meaning none.
pub open spec fn parity_choice(p: Seq<char>) -> Parity {
    if p == "odd"@ {
        Parity::Odd
    } else if p == "even"@ {
        Parity::Even
    } else {
        Parity::NoParity
    }
}

/// The stop bits chosen in the form: 2, anything else meaning 1.
pub open spec fn stop_bits_choice(bits: u8) -> StopBits {
    if bits == 2 {
        StopBits::Two
    } else {
        StopBits::One
    }
}

/// The flow control chosen in the form: `rtscts`, `xonxoff`, anything else
/// meaning none.
pub open spec fn flow_choice(f: Seq<char>) -> FlowControl {
    if f == "rtscts"@ {
        FlowControl::Hardware
    } else if f == "xonxoff"@ {
        FlowControl::Software
    } else {
        FlowControl::NoFlowControl
    }
}

/// `p` holds the non-secret fields of the form `f` for its current mode.
pub open spec fn profile_of_form(f: ConnectForm, p: Profile) -> bool {
    match f.mode {
        ConnMode::Serial => match p {
            Profile::Serial { port_name, baud_rate, newline } => {
                &&& port_name@ == f.serial_port@
                &&& parse_u32_spec(f.baud@) == Ok::<u32, ParseIntError>(baud_rate)
                &&& newline@ == newline_label(f.newline)
            },
            Profile::Ssh { .. } => false,
        },
        ConnMode::Ssh => match p {
            Profile::Ssh { host, port, username, newline } => {
                &&& host@ == f.host@
                &&& parse_u16_spec(f.ssh_port@) == Ok::<u16, ParseIntError>(port)
                &&& username@ == f.username@
                &&& newline@ == newline_label(f.newline)
            },
            Profile::Serial { .. } => false,
        },
    }
}

/// A stored newline name read back; an unknown name falls back to CRLF.
pub open spec fn newline_or_default(s: Seq<char>) -> NewlineMode {
    match parse_newline_spec(s) {
        Ok(m) => m,
        Err(_) => NewlineMode::CrLf,
    }
}

/// `after` is the form `before` filled from profile `p`: mode, target and
/// newline come from the profile, everything else (credentials included)
/// is left as it was.
pub open spec fn filled_from(before: ConnectForm, p: Profile, after: ConnectForm) -> bool {
    match p {
        Profile::Serial { port_name, baud_rate, newline } => {
            &&& after.serial_port@ == port_name@
            &&& after.baud@ == decimal(baud_rate as nat)
            &&& after == (ConnectForm {
                mode: ConnMode::Serial,
                serial_port: after.serial_port,
                baud: after.baud,
                newline: newline_or_default(newline@),
                ..before
            })
        },
        Profile::Ssh { host, port, username, newline } => {
            &&& after.host@ == host@
            &&& after.ssh_port@ == decimal(port as nat)
            &&& after.username@ == username@
            &&& after == (ConnectForm {
                mode: ConnMode::Ssh,
                host: after.host,
                ssh_port: after.ssh_port,
                username: after.username,
                newline: newline_or_default(newline@),
                ..before
            })
        },
    }
}

/// `r` is what connecting over serial with the form `f` uses: the settings
/// the form describes, or, when the baud rate does not parse, an error
/// naming it.
pub open spec fn serial_settings(f: ConnectForm, r: Result<SerialConfig, String>) -> bool {
    match parse_u32_spec(f.baud@) {
        Ok(baud_rate) => r matches Ok(c) && c.port_name@ == f.serial_port@ && c.baud_rate
            == baud_rate && c.data_bits == data_bits_choice(f.data_bits) && c.parity
            == parity_choice(f.parity@) && c.stop_bits == stop_bits_choice(f.stop_bits)
            && c.flow_control == flow_choice(f.flow_control@),
        Err(_) => r matches Err(m) && m@ == "invalid baud rate '"@ + f.baud@ + "'"@,
    }
}

/// The authentication that the form `f` asks for. A key file's passphrase
/// is the password field, when that is not empty.
pub open spec fn auth_of_form(f: ConnectForm, auth: SshAuth) -> bool {
    match f.auth_mode {
        AuthMode::Password => auth matches SshAuth::Password(p) && p@ == f.password@,
        AuthMode::Key => auth matches SshAuth::PrivateKey { path, passphrase } && path@
            == f.key_path@ && (if f.password@.len() == 0 {
            passphrase is None
        } else {
            passphrase matches Some(pp) && pp@ == f.password@
        }),
        AuthMode::Agent => auth is Agent,
    }
}

/// `r` is what connecting over SSH with the form `f` uses: the settings the
/// form describes (terminal `xterm-256color`, 120 by 32), or, when the port
/// does not parse, an error naming it.
pub open spec fn ssh_settings(f: ConnectForm, r: Result<SshConfig, String>) -> bool {
    match parse_u16_spec(f.ssh_port@) {
        Ok(port) => r matches Ok(c) && c.host@ == f.host@ && c.port == port && c.username@
            == f.username@ && c.term@ == "xterm-256color"@ && c.cols == 120 && c.rows == 32
            && auth_of_form(f, c.auth),
        Err(_) => r matches Err(m) && m@ == "invalid port '"@ + f.ssh_port@ + "'"@,
    }
}

/// `after` is `before` with only the error message changed, to `msg`.
pub open spec fn with_error(before: ConnectForm, after: ConnectForm, msg: Seq<char>) -> bool {
    &&& after.error matches Some(m) && m@ == msg
    &&& after == (ConnectForm { error: after.error, ..before })
}

/// A profile saved from a form and loaded into any form restores the mode,
/// the target and the newline mode; the port number or baud rate reads
/// back as the same number. Credentials are neither saved nor touched.
pub proof fn lemma_profile_round_trip(f: ConnectForm, p: Profile, g: ConnectForm, h: ConnectForm)
    requires
        profile_of_form(f, p),
        filled_from(g, p, h),
    ensures
        h.mode == f.mode,
        h.newline == f.newline,
        f.mode == ConnMode::Serial ==> h.serial_port@ == f.serial_port@ && parse_u32_spec(h.baud@)
            == parse_u32_spec(f.baud@),
        f.mode == ConnMode::Ssh ==> h.host@ == f.host@ && h.username@ == f.username@
            && parse_u16_spec(h.ssh_port@) == parse_u16_spec(f.ssh_port@),
        h.password == g.password,
        h.key_path == g.key_path,
        h.auth_mode == g.auth_mode,
{
    lemma_label_parses_back(f.newline);
    match p {
        Profile::Serial { baud_rate, .. } => {
            lemma_u32_string_round_trip(baud_rate);
        },
        Profile::Ssh { port, .. } => {
            lemma_u16_string_round_trip(port);
        },
    }
}

/// Connecting over serial uses, setting by setting, what the form says:
/// its port; 5, 6 or 7 data bits when it says so and 8 otherwise; odd
/// parity exactly for `odd`, even exactly for `even`, none otherwise; two
/// stop bits exactly for 2; RTS/CTS flow control exactly for `rtscts`,
/// XON/XOFF exactly for `xonxoff`, none otherwise.
pub proof fn lemma_serial_settings_fields(f: ConnectForm, c: SerialConfig)
    requires
        serial_settings(f, Ok(c)),
    ensures
        c.port_name@ == f.serial_port@,
        parse_u32_spec(f.baud@) == Ok::<u32, ParseIntError>(c.baud_rate),
        c.data_bits == DataBits::Five <==> f.data_bits == 5,
        c.data_bits == DataBits::Six <==> f.data_bits == 6,
        c.data_bits == DataBits::Seven <==> f.data_bits == 7,
        c.data_bits == DataBits::Eight <==> (f.data_bits != 5 && f.data_bits != 6 && f.data_bits != 7),
        c.parity == Parity::Odd <==> f.parity@ == "odd"@,
        c.parity == Parity::Even <==> f.parity@ == "even"@,
        c.parity == Parity::NoParity <==> (f.parity@ != "odd"@ && f.parity@ != "even"@),
        c.stop_bits == StopBits::Two <==> f.stop_bits == 2,
        c.stop_bits == StopBits::One <==> f.stop_bits != 2,
        c.flow_control == FlowControl::Hardware <==> f.flow_control@ == "rtscts"@,
        c.flow_control == FlowControl::Software <==> f.flow_control@ == "xonxoff"@,
        c.flow_control == FlowControl::NoFlowControl <==> (f.flow_control@ != "rtscts"@
            && f.flow_control@ != "xonxoff"@),
{
    reveal_strlit("odd");
    reveal_strlit("even");
    reveal_strlit("rtscts");
    reveal_strlit("xonxoff");
    assert("odd"@ != "even"@) by {
        assert("odd"@.len() != "even"@.len());
    }
    assert("rtscts"@ != "xonxoff"@) by {
        assert("rtscts"@.len() != "xonxoff"@.len());
    }
}

/// Connecting over SSH uses what the form says: its host, port and user,
/// an `xterm-256color` terminal of 120 by 32, and the authentication its
/// mode names. Password mode sends exactly the password typed; key mode
/// uses exactly the key path, with the password as the key's passphrase
/// when one was typed; agent mode uses the agent.
pub proof fn lemma_ssh_settings_fields(f: ConnectForm, c: SshConfig)
    requires
        ssh_settings(f, Ok(c)),
    ensures
        c.host@ == f.host@,
        parse_u16_spec(f.ssh_port@) == Ok::<u16, ParseIntError>(c.port),
        c.username@ == f.username@,
        c.term@ == "xterm-256color"@,
        c.cols == 120,
        c.rows == 32,
        f.auth_mode == AuthMode::Password ==> (c.auth matches SshAuth::Password(p) && p@
            == f.password@),
        f.auth_mode == AuthMode::Key ==> (c.auth matches SshAuth::PrivateKey { path, passphrase }
            && path@ == f.key_path@ && (f.password@.len() == 0 ==> passphrase is None) && (
        f.password@.len() > 0 ==> (passphrase matches Some(pp) && pp@ == f.password@))),
        f.auth_mode == AuthMode::Agent ==> c.auth is Agent,
{
}

fn quoted_error(prefix: &str, value: &str) -> (s: String)
    ensures
        s@ == prefix@ + value@ + "'"@,
{
    let mut s = String::from_str(prefix);
    s.append(value);
    s.append("'");
    s
}

impl ConnectForm {
    /// The form as it first opens, with the ports and profile names found.
    pub fn new(available_ports: Vec<String>, available_profiles: Vec<String>) -> (f: ConnectForm)
        ensures
            f.mode == ConnMode::Ssh,
            f.available_ports == available_ports,
            f.serial_port@ == Seq::<char>::empty(),
            f.baud@ == "115200"@,
            f.data_bits == 8,
            f.parity@ == "none"@,
            f.stop_bits == 1,
            f.flow_control@ == "none"@,
            f.host@ == Seq::<char>::empty(),
            f.ssh_port@ == "22"@,
            f.username@ == Seq::<char>::empty(),
            f.auth_mode == AuthMode::Password,
            f.password@ == Seq::<char>::empty(),
            f.key_path@ == Seq::<char>::empty(),
            f.newline == NewlineMode::CrLf,
            !f.log_enabled,
            f.log_path@ == Seq::<char>::empty(),
            f.available_profiles == available_profiles,
            f.profile_name@ == Seq::<char>::empty(),
            f.error is None,
    {
        ConnectForm {
            mode: ConnMode::Ssh,
            available_ports,
            serial_port: String::new(),
            baud: String::from_str("115200"),
            data_bits: 8,
            parity: String::from_str("none"),
            stop_bits: 1,
            flow_control: String::from_str("none"),
            host: String::new(),
            ssh_port: String::from_str("22"),
            username: String::new(),
            auth_mode: AuthMode::Password,
            password: String::new(),
            key_path: String::new(),
            newline: NewlineMode::CrLf,
            log_enabled: false,
            log_path: String::new(),
            available_profiles,
            profile_name: String::new(),
            error: None,
        }
    }

    /// Takes the result of enumerating serial ports; a failure leaves the
    /// list empty.
    pub fn refresh_ports(&mut self, listed: Result<Vec<String>, String>)
        ensures
            final(self).available_ports@ == match listed {
                Ok(v) => v@,
                Err(_) => Seq::<String>::empty(),
            },
            *final(self) == (ConnectForm { available_ports: final(self).available_ports, ..*old(self) }),
    {
        self.available_ports = match listed {
            Ok(v) => v,
            Err(_) => Vec::new(),
        };
    }

    /// Takes the result of listing saved profiles; a failure leaves the list
    /// empty.
    pub fn refresh_profiles(&mut self, listed: Result<Vec<String>, String>)
        ensures
            final(self).available_profiles@ == match listed {
                Ok(v) => v@,
                Err(_) => Seq::<String>::empty(),
            },
            *final(self) == (ConnectForm {
                available_profiles: final(self).available_profiles,
                ..*old(self)
            }),
    {
        self.available_profiles = match listed {
            Ok(v) => v,
            Err(_) => Vec::new(),
        };
    }

    /// Fill the form from a loaded profile, or show why loading failed.
    /// Credentials are never stored, so passwords and keys are left for the
    /// user to enter again.
    pub fn load_profile(&mut self, loaded: Result<Profile, String>)
        ensures
            loaded matches Ok(p) ==> filled_from(*old(self), p, *final(self)),
            loaded matches Err(m) ==> with_error(*old(self), *final(self), m@),
    {
        match loaded {
            Ok(Profile::Serial { port_name, baud_rate, newline }) => {
                self.mode = ConnMode::Serial;
                self.serial_port = port_name;
                self.baud = u32_to_string(baud_rate);
                self.newline = match NewlineMode::parse(newline.as_str()) {
                    Ok(m) => m,
                    Err(_) => NewlineMode::CrLf,
                };
            },
            Ok(Profile::Ssh { host, port, username, newline }) => {
                self.mode = ConnMode::Ssh;
                self.host = host;
                self.ssh_port = u32_to_string(port as u32);
                self.username = username;
                self.newline = match NewlineMode::parse(newline.as_str()) {
                    Ok(m) => m,
                    Err(_) => NewlineMode::CrLf,
                };
            },
            Err(e) => {
                self.error = Some(e);
            },
        }
    }

    /// The profile to save under `profile_name`. When the name is blank or
    /// the port or baud rate does not parse, there is none and the error
    /// says why.
    pub fn save_profile(&mut self) -> (r: Option<Profile>)
        ensures
            trim(old(self).profile_name@).len() == 0 ==> r is None && with_error(
                *old(self),
                *final(self),
                "Enter a profile name before saving"@,
            ),
            trim(old(self).profile_name@).len() > 0 && old(self).mode == ConnMode::Serial ==> match parse_u32_spec(old(self).baud@) {
                Ok(_) => r matches Some(p) && profile_of_form(*old(self), p) && *final(self) == *old(self),
                Err(e) => r is None && with_error(*old(self), *final(self), e.spec_message()),
            },
            trim(old(self).profile_name@).len() > 0 && old(self).mode == ConnMode::Ssh ==> match parse_u16_spec(old(self).ssh_port@) {
                Ok(_) => r matches Some(p) && profile_of_form(*old(self), p) && *final(self) == *old(self),
                Err(e) => r is None && with_error(*old(self), *final(self), e.spec_message()),
            },
    {
        if is_blank(self.profile_name.as_str()) {
            self.error = Some(String::from_str("Enter a profile name before saving"));
            return None;
        }
        match self.mode {
            ConnMode::Serial => match parse_u32(self.baud.as_str()) {
                Ok(baud_rate) => Some(Profile::Serial {
                    port_name: copy_string(&self.serial_port),
                    baud_rate,
                    newline: String::from_str(self.newline.label()),
                }),
                Err(e) => {
                    self.error = Some(String::from_str(e.message()));
                    None
                },
            },
            ConnMode::Ssh => match parse_u16(self.ssh_port.as_str()) {
                Ok(port) => Some(Profile::Ssh {
                    host: copy_string(&self.host),
                    port,
                    username: copy_string(&self.username),
                    newline: String::from_str(self.newline.label()),
                }),
                Err(e) => {
                    self.error = Some(String::from_str(e.message()));
                    None
                },
            },
        }
    }

    /// Takes the result of writing a profile: on success, `saved` is the
    /// store as written; the error is cleared and the profile list is read
    /// again from it. A failure shows why.
    pub fn profile_saved(&mut self, saved: Result<ProfileFile, String>)
        requires
            saved matches Ok(file) ==> file.wf(),
        ensures
            saved matches Ok(file) ==> {
                &&& *final(self) == (ConnectForm {
                    error: None,
                    available_profiles: final(self).available_profiles,
                    ..*old(self)
                })
                &&& strictly_sorted(names_of(final(self).available_profiles@))
                &&& forall|name: Seq<char>|
                    #[trigger] file@.dom().contains(name) <==> names_of(
                        final(self).available_profiles@,
                    ).contains(name)
            },
            saved matches Err(m) ==> with_error(*old(self), *final(self), m@),
    {
        match saved {
            Ok(file) => {
                self.error = None;
                self.available_profiles = list_profiles(&file);
            },
            Err(e) => {
                self.error = Some(e);
            },
        }
    }

    /// The serial settings the form describes, or why they are invalid.
    pub fn connect_serial(&self) -> (r: Result<SerialConfig, String>)
        ensures
            serial_settings(*self, r),
            r matches Ok(c) ==> {
                &&& c.parity == Parity::Odd <==> self.parity@ == "odd"@
                &&& c.parity == Parity::Even <==> self.parity@ == "even"@
                &&& c.parity == Parity::NoParity <==> (self.parity@ != "odd"@ && self.parity@
                    != "even"@)
                &&& c.flow_control == FlowControl::Hardware <==> self.flow_control@ == "rtscts"@
                &&& c.flow_control == FlowControl::Software <==> self.flow_control@ == "xonxoff"@
            },
    {
        let baud_rate = match parse_u32(self.baud.as_str()) {
            Ok(b) => b,
            Err(_) => {
                return Err(quoted_error("invalid baud rate '", self.baud.as_str()));
            },
        };
        let data_bits = if self.data_bits == 5 {
            DataBits::Five
        } else if self.data_bits == 6 {
            DataBits::Six
        } else if self.data_bits == 7 {
            DataBits::Seven
        } else {
            DataBits::Eight
        };
        let parity_chars = chars_of(self.parity.as_str());
        let parity = if chars_eq_str(parity_chars.as_slice(), "odd") {
            Parity::Odd
        } else if chars_eq_str(parity_chars.as_slice(), "even") {
            Parity::Even
        } else {
            Parity::NoParity
        };
        let stop_bits = if self.stop_bits == 2 {
            StopBits::Two
        } else {
            StopBits::One
        };
        let flow_chars = chars_of(self.flow_control.as_str());
        let flow_control = if chars_eq_str(flow_chars.as_slice(), "rtscts") {
            FlowControl::Hardware
        } else if chars_eq_str(flow_chars.as_slice(), "xonxoff") {
            FlowControl::Software
        } else {
            FlowControl::NoFlowControl
        };
        proof {
            reveal_strlit("odd");
            reveal_strlit("even");
            reveal_strlit("rtscts");
            reveal_strlit("xonxoff");
            assert("odd"@.len() != "even"@.len());
            assert("rtscts"@.len() != "xonxoff"@.len());
        }
        Ok(
            SerialConfig {
                port_name: copy_string(&self.serial_port),
                baud_rate,
                data_bits,
                parity,
                stop_bits,
                flow_control,
            },
        )
    }

    /// The SSH settings the form describes, or why they are invalid. A key
    /// file's passphrase is the password field, when it is not empty.
    pub fn connect_ssh(&self) -> (r: Result<SshConfig, String>)
        ensures
            ssh_settings(*self, r),
            r matches Ok(c) ==> {
                &&& self.auth_mode == AuthMode::Password ==> (c.auth matches SshAuth::Password(p)
                    && p@ == self.password@)
                &&& self.auth_mode == AuthMode::Key ==> (c.auth matches SshAuth::PrivateKey {
                    path,
                    ..
                } && path@ == self.key_path@)
                &&& self.auth_mode == AuthMode::Agent ==> c.auth is Agent
            },
    {
        let port = match parse_u16(self.ssh_port.as_str()) {
            Ok(p) => p,
            Err(_) => {
                return Err(quoted_error("invalid port '", self.ssh_port.as_str()));
            },
        };
        let auth = match self.auth_mode {
            AuthMode::Password => SshAuth::Password(copy_string(&self.password)),
            AuthMode::Key => SshAuth::PrivateKey {
                path: copy_string(&self.key_path),
                passphrase: if self.password.as_str().is_empty() {
                    None
                } else {
                    Some(copy_string(&self.password))
                },
            },
            AuthMode::Agent => SshAuth::Agent,
        };
        Ok(
            SshConfig {
                host: copy_string(&self.host),
                port,
                username: copy_string(&self.username),
                auth,
                term: String::from_str("xterm-256color"),
                cols: 120,
                rows: 32,
            },
        )
    }

    /// What to open for the form's current mode, or why it cannot be opened.
    pub fn connect_target(&self) -> (r: Result<ConnectTarget, String>)
        ensures
            self.mode == ConnMode::Serial ==> match r {
                Ok(ConnectTarget::Serial(c)) => serial_settings(*self, Ok(c)),
                Ok(ConnectTarget::Ssh(_)) => false,
                Err(m) => serial_settings(*self, Err(m)),
            },
            self.mode == ConnMode::Ssh ==> match r {
                Ok(ConnectTarget::Ssh(c)) => ssh_settings(*self, Ok(c)),
                Ok(ConnectTarget::Serial(_)) => false,
                Err(m) => ssh_settings(*self, Err(m)),
            },
    {
        match self.mode {
            ConnMode::Serial => match self.connect_serial() {
                Ok(c) => Ok(ConnectTarget::Serial(c)),
                Err(e) => Err(e),
            },
            ConnMode::Ssh => match self.connect_ssh() {
                Ok(c) => Ok(ConnectTarget::Ssh(c)),
                Err(e) => Err(e),
            },
        }
    }

    /// Takes the result of opening a connection: on success the error is
    /// cleared and the connection handed back, on failure the error shows.
    pub fn connect<C>(&mut self, opened: Result<C, String>) -> (r: Option<C>)
        ensures
            opened matches Ok(c) ==> r == Some(c) && *final(self) == (ConnectForm {
                error: None,
                ..*old(self)
            }),
            opened matches Err(m) ==> r is None && with_error(*old(self), *final(self), m@),
    {
        match opened {
            Ok(c) => {
                self.error = None;
                Some(c)
            },
            Err(e) => {
                self.error = Some(e);
                None
            },
        }
    }
}

} // verus!
