//! SSH session settings, and the decisions taken while moving bytes over
//! the non-blocking shell channel. The TCP connection, handshake,
//! authentication and the channel calls themselves are the caller's part;
//! this module holds what the user configures, how the target is written,
//! what a read of the channel means, and when a write retries, flushes or
//! gives up.
use vstd::prelude::*;

use crate::text::{decimal, u32_to_string};

verus! {

/// How to authenticate an SSH session.
#[derive(Debug, Clone)]
pub enum SshAuth {
    Password(String),
    PrivateKey { path: String, passphrase: Option<String> },
    Agent,
}

/// Everything needed to open an SSH shell.
#[derive(Debug, Clone)]
pub struct SshConfig {
    pub host: String,
    pub port: u16,
    pub username: String,
    pub auth: SshAuth,
    pub term: String,
    pub cols: u32,
    pub rows: u32,
}

impl SshConfig {
    /// The address to dial: `<host>:<port>`.
    pub fn address(&self) -> (s: String)
        ensures
            s@ == self.host@ + ":"@ + decimal(self.port as nat),
    {
        let mut s = String::from_str(self.host.as_str());
        s.append(":");
        let port = u32_to_string(self.port as u32);
        s.append(port.as_str());
        s
    }

    /// Summary for the status bar: `<user>@<host>:<port>`.
    pub fn target(&self) -> (s: String)
        ensures
            s@ == self.username@ + "@"@ + self.host@ + ":"@ + decimal(self.port as nat),
    {
        let mut s = String::from_str(self.username.as_str());
        s.append("@");
        let addr = self.address();
        s.append(addr.as_str());
        proof {
            assert(s@ =~= self.username@ + "@"@ + self.host@ + ":"@ + decimal(self.port as nat));
        }
        s
    }
}

/// What one read of the shell channel reported.
#[derive(Debug, Clone, Copy, PartialEq, Eq, Structural)]
pub enum ReadReport {
    /// The remote end had closed the channel; nothing was read.
    Closed,
    /// The read returned this many bytes.
    Read(usize),
    /// The channel had nothing yet and would have blocked.
    WouldBlock,
    /// The read failed otherwise; the caller holds the error.
    Failed,
}

/// What a read means for the session.
#[derive(Debug, Clone, Copy, PartialEq, Eq, Structural)]
pub enum ReadOutcome {
    /// Nothing to read yet (not end of stream).
    Nothing,
    /// The first this many bytes of the buffer arrived.
    Bytes(usize),
    /// The remote end closed the channel: the session ends.
    RemoteClosed,
    /// The read failed: the session ends with the caller's error.
    Failed,
}

/// A read that returned no bytes, or would have blocked, is "nothing yet";
/// only a closed channel or a real error ends the session.
pub fn read_outcome(report: ReadReport) -> (r: ReadOutcome)
    ensures
        r == match report {
            ReadReport::Closed => ReadOutcome::RemoteClosed,
            ReadReport::Read(n) => if n == 0 {
                ReadOutcome::Nothing
            } else {
                ReadOutcome::Bytes(n)
            },
            ReadReport::WouldBlock => ReadOutcome::Nothing,
            ReadReport::Failed => ReadOutcome::Failed,
        },
{
    match report {
        ReadReport::Closed => ReadOutcome::RemoteClosed,
        ReadReport::Read(n) => if n == 0 {
            ReadOutcome::Nothing
        } else {
            ReadOutcome::Bytes(n)
        },
        ReadReport::WouldBlock => ReadOutcome::Nothing,
        ReadReport::Failed => ReadOutcome::Failed,
    }
}

/// How many times a write may find the channel busy, and wait, before it
/// gives up.
pub const MAX_WRITE_SPINS: u32 = 2000;

/// What one write (or flush) of the shell channel reported.
#[derive(Debug, Clone, Copy, PartialEq, Eq, Structural)]
pub enum WriteReport {
    /// The call succeeded; a write took this many bytes (a flush, none).
    Done(usize),
    /// The channel was busy and the call would have blocked.
    WouldBlock,
    /// The call failed otherwise; the caller holds the error.
    Failed,
}

/// What to do next while writing a payload to the shell channel.
#[derive(Debug, Clone, Copy, PartialEq, Eq, Structural)]
pub enum WriteAction {
    /// Write the bytes from `written` on.
    Write,
    /// Wait a moment, then write the bytes from `written` on.
    SleepThenWrite,
    /// Flush the channel.
    Flush,
    /// Wait a moment, then flush again.
    SleepThenFlush,
    /// The payload is written and flushed.
    Finished,
    /// The channel stayed busy too long: fail with a time-out.
    TimedOut,
    /// Fail with the error the caller holds.
    GiveUp,
}

/// A payload of `len` bytes being written to the non-blocking channel:
/// how much of it went out, how often the channel was busy, and whether
/// only the flush is left.
#[derive(Debug, Clone, Copy, PartialEq, Eq, Structural)]
pub struct ChannelWrite {
    pub len: usize,
    pub written: usize,
    pub spins: u32,
    pub flushing: bool,
}

impl ChannelWrite {
    /// No more is written than the payload holds, the busy count stays
    /// within its limit, and the flush comes only after everything went out.
    pub open spec fn wf(self) -> bool {
        &&& self.written <= self.len
        &&& self.spins <= MAX_WRITE_SPINS
        &&& self.flushing ==> self.written == self.len
    }

    /// Start writing `len` bytes; an empty payload goes straight to the
    /// flush.
    pub fn new(len: usize) -> (r: (ChannelWrite, WriteAction))
        ensures
            r.0.wf(),
            r.0 == (ChannelWrite { len, written: 0, spins: 0, flushing: len == 0 }),
            r.1 == if len == 0 {
                WriteAction::Flush
            } else {
                WriteAction::Write
            },
    {
        let w = ChannelWrite { len, written: 0, spins: 0, flushing: len == 0 };
        if len == 0 {
            (w, WriteAction::Flush)
        } else {
            (w, WriteAction::Write)
        }
    }

    /// Take what the last write or flush reported and say what comes next.
    /// While writing, each report of a busy channel counts; once
    /// `MAX_WRITE_SPINS` waits have been spent, the next one times out. A
    /// busy flush is retried without limit. Any other error gives up.
    pub fn step(&mut self, report: WriteReport) -> (a: WriteAction)
        requires
            old(self).wf(),
            !old(self).flushing ==> (report matches WriteReport::Done(n) ==> old(self).written + n
                <= old(self).len),
        ensures
            final(self).wf(),
            final(self).len == old(self).len,
            old(self).flushing ==> *final(self) == *old(self) && a == match report {
                WriteReport::Done(_) => WriteAction::Finished,
                WriteReport::WouldBlock => WriteAction::SleepThenFlush,
                WriteReport::Failed => WriteAction::GiveUp,
            },
            !old(self).flushing ==> match report {
                WriteReport::Done(n) => {
                    let w = old(self).written + n;
                    &&& *final(self) == (ChannelWrite {
                        written: w as usize,
                        flushing: w == old(self).len,
                        ..*old(self)
                    })
                    &&& a == if w == old(self).len {
                        WriteAction::Flush
                    } else {
                        WriteAction::Write
                    }
                },
                WriteReport::WouldBlock => if old(self).spins < MAX_WRITE_SPINS {
                    *final(self) == (ChannelWrite { spins: (old(self).spins + 1) as u32, ..*old(self) })
                        && a == WriteAction::SleepThenWrite
                } else {
                    *final(self) == *old(self) && a == WriteAction::TimedOut
                },
                WriteReport::Failed => *final(self) == *old(self) && a == WriteAction::GiveUp,
            },
    {
        if self.flushing {
            return match report {
                WriteReport::Done(_) => WriteAction::Finished,
                WriteReport::WouldBlock => WriteAction::SleepThenFlush,
                WriteReport::Failed => WriteAction::GiveUp,
            };
        }
        match report {
            WriteReport::Done(n) => {
                self.written = self.written + n;
                if self.written == self.len {
                    self.flushing = true;
                    WriteAction::Flush
                } else {
                    WriteAction::Write
                }
            },
            WriteReport::WouldBlock => {
                if self.spins < MAX_WRITE_SPINS {
                    self.spins = self.spins + 1;
                    WriteAction::SleepThenWrite
                } else {
                    WriteAction::TimedOut
                }
            },
            WriteReport::Failed => WriteAction::GiveUp,
        }
    }
}

} // verus!
