//! Transport-agnostic connection abstraction.
//!
//! The serial and SSH transports each implement [`Connection`], so a
//! session drives either one through the same calls.
use vstd::prelude::*;

use crate::text::{chars_eq_str, chars_of, string_from_chars};

verus! {

#[verifier::external_type_specification]
#[verifier::external_body]
pub struct ExIoError(std::io::Error);

/// A live, byte-oriented session (serial port or SSH shell channel).
pub trait Connection {
    /// Return whatever bytes are available right now without blocking for
    /// long. An empty `Vec` means "nothing to read yet", not EOF.
    fn read_available(&mut self) -> std::io::Result<Vec<u8>>;

    /// Write bytes to the remote end, blocking until fully sent.
    fn write_all(&mut self, data: &[u8]) -> std::io::Result<()>;

    /// Human-readable summary for the status bar, e.g. "COM3 @ 115200" or
    /// "user@host:22".
    fn describe(&self) -> String;

    /// Best-effort clean shutdown. Errors are logged, not propagated.
    fn close(&mut self);
}

/// Line ending to append when the user presses Enter.
#[derive(Debug, Clone, Copy, PartialEq, Eq, Structural)]
pub enum NewlineMode {
    Raw,
    Lf,
    CrLf,
}

/// The bytes that a newline mode appends.
pub open spec fn newline_bytes(mode: NewlineMode) -> Seq<u8> {
    match mode {
        NewlineMode::Raw => Seq::empty(),
        NewlineMode::Lf => seq![0x0Au8],
        NewlineMode::CrLf => seq![0x0Du8, 0x0Au8],
    }
}

/// The name a newline mode is shown (and stored) under.
pub open spec fn newline_label(mode: NewlineMode) -> Seq<char> {
    match mode {
        NewlineMode::Raw => "raw"@,
        NewlineMode::Lf => "LF"@,
        NewlineMode::CrLf => "CRLF"@,
    }
}

/// `c` with ASCII upper case mapped to lower case (`char::to_ascii_lowercase`).
pub open spec fn ascii_lower_char(c: char) -> char {
    if 'A' <= c <= 'Z' {
        (c as u32 + 32) as char
    } else {
        c
    }
}

/// `s` with ASCII upper case mapped to lower case (`str::to_ascii_lowercase`).
pub open spec fn ascii_lower(s: Seq<char>) -> Seq<char> {
    s.map_values(|c: char| ascii_lower_char(c))
}

/// What parsing `s` as a newline mode gives: case is ignored for ASCII
/// letters; `none` and `raw` name the raw mode.
pub open spec fn parse_newline_spec(s: Seq<char>) -> Result<NewlineMode, Seq<char>> {
    let l = ascii_lower(s);
    if l == "none"@ || l == "raw"@ {
        Ok(NewlineMode::Raw)
    } else if l == "lf"@ {
        Ok(NewlineMode::Lf)
    } else if l == "crlf"@ {
        Ok(NewlineMode::CrLf)
    } else {
        Err("unknown newline mode '"@ + l + "' (expected none|lf|crlf)"@)
    }
}

/// `s.to_ascii_lowercase()`, as characters.
pub fn ascii_lowercase_chars(s: &str) -> (r: Vec<char>)
    ensures
        r@ == ascii_lower(s@),
{
    let v = chars_of(s);
    let mut r: Vec<char> = Vec::new();
    let mut i: usize = 0;
    while i < v.len()
        invariant
            i <= v.len(),
            v@ == s@,
            r@ == ascii_lower(s@).take(i as int),
        decreases v.len() - i,
    {
        let c = v[i];
        let l = if 'A' <= c && c <= 'Z' {
            ((c as u8) + 32) as char
        } else {
            c
        };
        proof {
            if 'A' <= c && c <= 'Z' {
                assert((c as u8) as u32 == c as u32);
            }
            assert(ascii_lower(s@).take(i + 1) =~= ascii_lower(s@).take(i as int).push(l));
        }
        r.push(l);
        i = i + 1;
    }
    proof {
        assert(ascii_lower(s@).take(v.len() as int) =~= ascii_lower(s@));
    }
    r
}

impl NewlineMode {
    /// Every mode, in the order the selectors list them.
    pub const ALL: [NewlineMode; 3] = [NewlineMode::CrLf, NewlineMode::Lf, NewlineMode::Raw];

    pub fn as_bytes(self) -> (r: &'static [u8])
        ensures
            r@ == newline_bytes(self),
    {
        match self {
            NewlineMode::Raw => &[],
            NewlineMode::Lf => &[0x0Au8],
            NewlineMode::CrLf => &[0x0Du8, 0x0Au8],
        }
    }

    pub fn label(self) -> (r: &'static str)
        ensures
            r@ == newline_label(self),
    {
        match self {
            NewlineMode::Raw => "raw",
            NewlineMode::Lf => "LF",
            NewlineMode::CrLf => "CRLF",
        }
    }

    /// Reads a newline mode by name; ASCII case is ignored. On failure the
    /// error says which (lower-cased) name was not recognized.
    pub fn parse(s: &str) -> (r: Result<NewlineMode, String>)
        ensures
            match parse_newline_spec(s@) {
                Ok(m) => r == Ok::<NewlineMode, String>(m),
                Err(msg) => r is Err && r->Err_0@ == msg,
            },
    {
        let l = ascii_lowercase_chars(s);
        if chars_eq_str(l.as_slice(), "none") || chars_eq_str(l.as_slice(), "raw") {
            Ok(NewlineMode::Raw)
        } else if chars_eq_str(l.as_slice(), "lf") {
            Ok(NewlineMode::Lf)
        } else if chars_eq_str(l.as_slice(), "crlf") {
            Ok(NewlineMode::CrLf)
        } else {
            let mut msg = String::from_str("unknown newline mode '");
            let shown = string_from_chars(l.as_slice());
            msg.append(shown.as_str());
            msg.append("' (expected none|lf|crlf)");
            Err(msg)
        }
    }
}

impl std::str::FromStr for NewlineMode {
    type Err = String;

    fn from_str(s: &str) -> (r: Result<Self, Self::Err>)
        ensures
            match parse_newline_spec(s@) {
                Ok(m) => r == Ok::<NewlineMode, String>(m),
                Err(msg) => r is Err && r->Err_0@ == msg,
            },
    {
        NewlineMode::parse(s)
    }
}

/// The label of a mode reads back as the same mode, so a mode stored by
/// its label is restored unchanged.
pub proof fn lemma_label_parses_back(mode: NewlineMode)
    ensures
        parse_newline_spec(newline_label(mode)) == Ok::<NewlineMode, Seq<char>>(mode),
{
    reveal_strlit("raw");
    reveal_strlit("LF");
    reveal_strlit("CRLF");
    reveal_strlit("none");
    reveal_strlit("lf");
    reveal_strlit("crlf");
    let l = ascii_lower(newline_label(mode));
    match mode {
        NewlineMode::Raw => {
            assert(l =~= "raw"@);
        },
        NewlineMode::Lf => {
            assert(l =~= "lf"@);
            assert(l != "none"@) by { assert(l.len() == 2); assert("none"@.len() == 4); }
            assert(l != "raw"@) by { assert(l.len() == 2); assert("raw"@.len() == 3); }
        },
        NewlineMode::CrLf => {
            assert(l =~= "crlf"@);
            assert(l != "none"@) by { assert(l[0] == 'c'); assert("none"@[0] == 'n'); }
            assert(l != "raw"@) by { assert(l.len() == 4); assert("raw"@.len() == 3); }
            assert(l != "lf"@) by { assert(l.len() == 4); assert("lf"@.len() == 2); }
        },
    }
}

} // verus!
