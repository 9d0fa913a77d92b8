//! A live connection plus its output log and pending input.
//!
//! The log keeps the most recent `MAX_LOG_BYTES` bytes of ANSI-stripped
//! output and local echo. While logging is on, every byte appended to the
//! log is also queued as log-file output; the caller writes the queue to the
//! file (`take_log_output`) and reports a failed write (`log_write_failed`).
//!
//! Text to send is split into lines and queued. Sending a line is three
//! steps: `next_payload` echoes the line and hands out its payload (the line
//! and the newline bytes), `write_payload` gives that payload to the
//! connection, and `payload_written` takes the outcome. `send_queued` runs
//! the steps until the queue is empty or a write fails.
use vstd::prelude::*;

use crate::ansi::{run_output, run_state, AnsiFilter, AnsiState};
use crate::connection::{newline_bytes, Connection, NewlineMode};
use crate::text::{byte_lines, lines, split_lines_bytes};

verus! {

/// Cap on retained output so long-running sessions stay bounded.
pub const MAX_LOG_BYTES: usize = 2 * 1024 * 1024;

/// The last `MAX_LOG_BYTES` bytes of `s` (all of `s` when it is shorter).
pub open spec fn capped(s: Seq<u8>) -> Seq<u8> {
    if s.len() > MAX_LOG_BYTES {
        s.subrange(s.len() - MAX_LOG_BYTES, s.len() as int)
    } else {
        s
    }
}

/// The retained log is the last `min(len, MAX_LOG_BYTES)` bytes of
/// everything appended: never longer than the cap, and always a suffix.
pub proof fn lemma_capped(s: Seq<u8>)
    ensures
        capped(s).len() == (if s.len() > MAX_LOG_BYTES { MAX_LOG_BYTES as nat } else { s.len() }),
        capped(s) == s.subrange(s.len() - capped(s).len(), s.len() as int),
{
    if s.len() <= MAX_LOG_BYTES {
        assert(s.subrange(0, s.len() as int) =~= s);
    }
}

/// Each line followed by the newline bytes, all run together: what the
/// local echo of a sent text adds to the log.
pub open spec fn echo(ls: Seq<Seq<u8>>, nl: Seq<u8>) -> Seq<u8>
    decreases ls.len(),
{
    if ls.len() == 0 {
        Seq::empty()
    } else {
        echo(ls.drop_last(), nl) + ls.last() + nl
    }
}

/// What a session holds, as plain values.
pub struct SessionView {
    /// The retained log.
    pub log: Seq<u8>,
    /// The connection's description, fixed when the session starts.
    pub label: Seq<char>,
    /// Whether the log is being mirrored to a file.
    pub logging: bool,
    /// The path of that file, while logging.
    pub log_path: Seq<char>,
    /// Log-file output that the caller has not collected yet.
    pub log_output: Seq<u8>,
    /// Where the escape-sequence filter stands.
    pub filter: AnsiState,
    /// Whether the session still holds its connection.
    pub has_connection: bool,
    /// Lines queued for sending, oldest first, without line endings.
    pub queued: Seq<Seq<u8>>,
    /// The payload handed out by `next_payload` whose write has not been
    /// reported yet.
    pub pending: Option<Seq<u8>>,
    /// The input line being typed.
    pub input: Seq<char>,
    /// The line ending appended to each sent line.
    pub newline_mode: NewlineMode,
    /// The status-bar message.
    pub status: Seq<char>,
    /// Whether the session counts as connected.
    pub connected: bool,
}

/// A live connection plus its output log and pending input.
pub struct Session<C> {
    connection: Option<C>,
    connection_label: String,
    log: Vec<u8>,
    log_file: Option<String>,
    log_out: Vec<u8>,
    ansi_filter: AnsiFilter,
    outbox: Vec<Vec<u8>>,
    pending: Option<Vec<u8>>,
    pub input: String,
    pub newline_mode: NewlineMode,
    pub status: String,
    pub connected: bool,
}

impl<C> View for Session<C> {
    type V = SessionView;

    closed spec fn view(&self) -> SessionView {
        SessionView {
            log: self.log@,
            label: self.connection_label@,
            logging: self.log_file is Some,
            log_path: match self.log_file {
                Some(p) => p@,
                None => Seq::empty(),
            },
            log_output: self.log_out@,
            filter: self.ansi_filter@,
            has_connection: self.connection is Some,
            queued: byte_lines(self.outbox@),
            pending: match self.pending {
                Some(p) => Some(p@),
                None => None,
            },
            input: self.input@,
            newline_mode: self.newline_mode,
            status: self.status@,
            connected: self.connected,
        }
    }
}

/// The session after `data` arrived from the connection: escape sequences
/// are stripped and the rest is appended to the log (and to the log-file
/// output while logging).
pub open spec fn received(v: SessionView, data: Seq<u8>) -> SessionView {
    let kept = run_output(v.filter, data);
    SessionView {
        log: capped(v.log + kept),
        log_output: if v.logging {
            v.log_output + kept
        } else {
            v.log_output
        },
        filter: run_state(v.filter, data),
        ..v
    }
}

/// The session after its connection was dropped for the reason `status`:
/// nothing more is sent, so the queue is emptied.
pub open spec fn dropped(v: SessionView, status: Seq<char>) -> SessionView {
    SessionView {
        has_connection: false,
        status,
        connected: false,
        queued: Seq::empty(),
        pending: None,
        ..v
    }
}

/// The session after the lines `ls` were echoed: each is appended to the
/// log (and to the log-file output while logging) followed by the newline
/// bytes.
pub open spec fn echoed(v: SessionView, ls: Seq<Seq<u8>>) -> SessionView {
    let nl = newline_bytes(v.newline_mode);
    SessionView {
        log: capped(v.log + echo(ls, nl)),
        log_output: if v.logging {
            v.log_output + echo(ls, nl)
        } else {
            v.log_output
        },
        ..v
    }
}

/// The session after the first `n` queued lines were echoed and written:
/// they have left the queue and no write is outstanding.
pub open spec fn sent_lines(v: SessionView, n: int) -> SessionView {
    SessionView { queued: v.queued.skip(n), pending: None, ..echoed(v, v.queued.take(n)) }
}

/// What sending the queued lines one at a time does: every line is echoed
/// and written, or the lines up to and including the one whose write failed
/// are echoed and the connection is dropped with a "Send failed" status.
pub open spec fn flushed(v: SessionView, after: SessionView) -> bool {
    ||| after == sent_lines(v, v.queued.len() as int)
    ||| exists|k: int, reason: Seq<char>|
        1 <= k <= v.queued.len() && v.has_connection && after == #[trigger] dropped(
            sent_lines(v, k),
            "Send failed: "@ + reason,
        )
}

/// Appending to a capped log and capping again is capping the whole.
pub proof fn lemma_capped_append(a: Seq<u8>, b: Seq<u8>)
    ensures
        capped(capped(a) + b) == capped(a + b),
{
    if a.len() > MAX_LOG_BYTES {
        let ca = capped(a);
        let n = (a + b).len();
        if (ca + b).len() > MAX_LOG_BYTES {
            assert((ca + b).subrange((ca + b).len() - MAX_LOG_BYTES, (ca + b).len() as int) =~= (a
                + b).subrange(n - MAX_LOG_BYTES, n as int));
        }
    }
}

/// Output that arrives in two reads is logged exactly as if it had arrived
/// in one: an escape sequence split across the reads is still stripped, and
/// the log and log-file output come out the same.
pub proof fn lemma_received_in_chunks(v: SessionView, a: Seq<u8>, b: Seq<u8>)
    ensures
        received(received(v, a), b) == received(v, a + b),
{
    crate::ansi::lemma_chunking(v.filter, a, b);
    let ka = run_output(v.filter, a);
    let kb = run_output(run_state(v.filter, a), b);
    lemma_capped_append(v.log + ka, kb);
    assert(v.log + ka + kb =~= v.log + (ka + kb));
    assert(v.log_output + ka + kb =~= v.log_output + (ka + kb));
}

/// Plain text arriving while no escape sequence is open is logged whole:
/// every byte of it is appended to the log (keeping the last
/// `MAX_LOG_BYTES`) and, while logging, to the log-file output.
pub proof fn lemma_plain_output_logged(v: SessionView, data: Seq<u8>)
    requires
        v.filter == AnsiState::Normal,
        crate::ansi::plain(data),
    ensures
        received(v, data).log == capped(v.log + data),
        received(v, data).log_output == (if v.logging {
            v.log_output + data
        } else {
            v.log_output
        }),
        received(v, data).filter == AnsiState::Normal,
{
    crate::ansi::lemma_plain_text_unchanged(data);
}

/// While logging, the log file gets exactly what the log area shows: what
/// arrives and what is echoed is appended to the log-file output byte for
/// byte, and the log is the capped result of appending the same bytes.
pub proof fn lemma_log_file_mirrors_log(v: SessionView, data: Seq<u8>, ls: Seq<Seq<u8>>)
    requires
        v.logging,
    ensures
        ({
            let after = received(v, data);
            &&& after.log_output.subrange(0, v.log_output.len() as int) == v.log_output
            &&& after.log == capped(v.log + after.log_output.skip(v.log_output.len() as int))
        }),
        ({
            let after = echoed(v, ls);
            &&& after.log_output.subrange(0, v.log_output.len() as int) == v.log_output
            &&& after.log == capped(v.log + after.log_output.skip(v.log_output.len() as int))
        }),
{
    let kept = run_output(v.filter, data);
    assert((v.log_output + kept).subrange(0, v.log_output.len() as int) =~= v.log_output);
    assert((v.log_output + kept).skip(v.log_output.len() as int) =~= kept);
    let e = echo(ls, newline_bytes(v.newline_mode));
    assert((v.log_output + e).subrange(0, v.log_output.len() as int) =~= v.log_output);
    assert((v.log_output + e).skip(v.log_output.len() as int) =~= e);
}

/// Echoing lines one at a time leaves the log and the log-file output
/// exactly as echoing them all at once.
pub proof fn lemma_echoed_push(v: SessionView, ls: Seq<Seq<u8>>, l: Seq<u8>)
    ensures
        echoed(echoed(v, ls), seq![l]) == echoed(v, ls.push(l)),
{
    let nl = newline_bytes(v.newline_mode);
    lemma_echo_push(ls, l, nl);
    lemma_echo_push(Seq::empty(), l, nl);
    assert(Seq::<Seq<u8>>::empty().push(l) =~= seq![l]);
    assert(echo(Seq::<Seq<u8>>::empty(), nl) =~= Seq::<u8>::empty());
    assert(Seq::<u8>::empty() + l + nl =~= l + nl);
    lemma_capped_append(v.log + echo(ls, nl), l + nl);
    assert(v.log + echo(ls, nl) + (l + nl) =~= v.log + echo(ls.push(l), nl));
    assert(v.log_output + echo(ls, nl) + (l + nl) =~= v.log_output + echo(ls.push(l), nl));
}

/// Sending one more queued line after `n` have gone out is sending `n + 1`.
proof fn lemma_sent_lines_step(v: SessionView, n: int)
    requires
        0 <= n < v.queued.len(),
    ensures
        (SessionView {
            queued: sent_lines(v, n).queued.drop_first(),
            pending: None,
            ..echoed(sent_lines(v, n), seq![v.queued[n]])
        }) == sent_lines(v, n + 1),
{
    lemma_echoed_push(v, v.queued.take(n), v.queued[n]);
    assert(v.queued.take(n).push(v.queued[n]) =~= v.queued.take(n + 1));
    assert(v.queued.skip(n).drop_first() =~= v.queued.skip(n + 1));
}

/// With nothing sent yet and no write outstanding, the session is as it was.
proof fn lemma_sent_none(v: SessionView)
    requires
        v.log.len() <= MAX_LOG_BYTES,
        v.pending is None,
    ensures
        sent_lines(v, 0) == v,
{
    let nl = newline_bytes(v.newline_mode);
    assert(v.queued.take(0) =~= Seq::<Seq<u8>>::empty());
    assert(v.queued.skip(0) =~= v.queued);
    assert(echo(Seq::<Seq<u8>>::empty(), nl) =~= Seq::<u8>::empty());
    assert(v.log + Seq::<u8>::empty() =~= v.log);
    assert(v.log_output + Seq::<u8>::empty() =~= v.log_output);
}

proof fn lemma_echo_push(ls: Seq<Seq<u8>>, l: Seq<u8>, nl: Seq<u8>)
    ensures
        echo(ls.push(l), nl) == echo(ls, nl) + l + nl,
{
    assert(ls.push(l).drop_last() =~= ls);
}

/// `String::from_utf8_lossy` on `bytes`: the text with each invalid UTF-8
/// sequence replaced by U+FFFD.
pub uninterp spec fn utf8_lossy(bytes: Seq<u8>) -> Seq<char>;

/// Calls `String::from_utf8_lossy`. Claims that the result is the named
/// function of the bytes and, as the documentation states, that valid UTF-8
/// comes back as the text it encodes.
#[verifier::external_body]
fn lossy_text(bytes: &[u8]) -> (s: String)
    ensures
        s@ == utf8_lossy(bytes@),
        vstd::utf8::valid_utf8(bytes@) ==> s@ == vstd::utf8::decode_utf8(bytes@),
{
    String::from_utf8_lossy(bytes).into_owned()
}

/// A status message: `prefix` followed by `detail`.
fn status_text(prefix: &str, detail: &str) -> (s: String)
    ensures
        s@ == prefix@ + detail@,
{
    let mut s = String::from_str(prefix);
    s.append(detail);
    s
}

impl<C: Connection> Session<C> {
    /// The log never holds more than `MAX_LOG_BYTES` bytes.
    pub open spec fn wf(&self) -> bool {
        self@.log.len() <= MAX_LOG_BYTES
    }

    pub fn new(connection: C, newline_mode: NewlineMode) -> (s: Self)
        ensures
            s.wf(),
            s@.log == Seq::<u8>::empty(),
            !s@.logging,
            s@.log_output == Seq::<u8>::empty(),
            s@.filter == AnsiState::Normal,
            s@.has_connection,
            s@.queued == Seq::<Seq<u8>>::empty(),
            s@.pending is None,
            s@.input == Seq::<char>::empty(),
            s@.newline_mode == newline_mode,
            s@.status == "Connected"@,
            s@.connected,
    {
        let connection_label = connection.describe();
        Session {
            connection: Some(connection),
            connection_label,
            log: Vec::new(),
            log_file: None,
            log_out: Vec::new(),
            ansi_filter: AnsiFilter::new(),
            outbox: Vec::new(),
            pending: None,
            input: String::new(),
            newline_mode,
            status: String::from_str("Connected"),
            connected: true,
        }
    }

    pub fn connection_label(&self) -> (r: &str)
        ensures
            r@ == self@.label,
    {
        self.connection_label.as_str()
    }

    /// The log file's path, while logging.
    pub fn log_path(&self) -> (r: Option<&str>)
        ensures
            r is Some <==> self@.logging,
            r matches Some(p) ==> p@ == self@.log_path,
    {
        match &self.log_file {
            Some(p) => Some(p.as_str()),
            None => None,
        }
    }

    /// Start mirroring the log to the file at `path`, tagged with a
    /// `# <connection>` line so appended sessions can be told apart.
    pub fn set_log_file(&mut self, path: String)
        requires
            old(self).wf(),
        ensures
            final(self).wf(),
            final(self)@ == (SessionView {
                logging: true,
                log_path: path@,
                log_output: old(self)@.log_output + vstd::utf8::encode_utf8(
                    "# "@ + old(self)@.label + "\n"@,
                ),
                ..old(self)@
            }),
    {
        self.log_file = Some(path);
        let header = status_text("# ", self.connection_label.as_str());
        let header = status_text(header.as_str(), "\n");
        let bytes = header.as_str().as_bytes();
        self.log_out.extend_from_slice(bytes);
        proof {
            assert(self.log_out@ =~= old(self)@.log_output + vstd::utf8::encode_utf8(
                "# "@ + self.connection_label@ + "\n"@,
            ));
        }
    }

    /// Start logging in the middle of a session. Only output from now on is
    /// logged; what is already on screen is not back-filled.
    pub fn start_log(&mut self, path: String)
        requires
            old(self).wf(),
        ensures
            final(self).wf(),
            final(self)@ == (SessionView {
                logging: true,
                log_path: path@,
                log_output: old(self)@.log_output + vstd::utf8::encode_utf8(
                    "# "@ + old(self)@.label + "\n"@,
                ),
                status: "Logging started"@,
                ..old(self)@
            }),
    {
        self.set_log_file(path);
        self.status = String::from_str("Logging started");
    }

    /// Stop logging, if it is on.
    pub fn stop_log(&mut self)
        requires
            old(self).wf(),
        ensures
            final(self).wf(),
            old(self)@.logging ==> final(self)@ == (SessionView {
                logging: false,
                log_path: Seq::empty(),
                status: "Logging stopped"@,
                ..old(self)@
            }),
            !old(self)@.logging ==> final(self)@ == old(self)@,
    {
        if self.log_file.take().is_some() {
            self.status = String::from_str("Logging stopped");
        }
    }

    /// A write to the log file failed: logging stops (and the status bar says
    /// so), output not yet written is dropped, the connection is untouched.
    pub fn log_write_failed(&mut self, reason: &str)
        requires
            old(self).wf(),
        ensures
            final(self).wf(),
            old(self)@.logging ==> final(self)@ == (SessionView {
                logging: false,
                log_path: Seq::empty(),
                log_output: Seq::empty(),
                status: "Log write failed, logging stopped: "@ + reason@,
                ..old(self)@
            }),
            !old(self)@.logging ==> final(self)@ == old(self)@,
    {
        if self.log_file.is_some() {
            self.status = status_text("Log write failed, logging stopped: ", reason);
            self.log_file = None;
            self.log_out = Vec::new();
        }
    }

    /// Hands over the log-file output queued so far, leaving the queue empty.
    pub fn take_log_output(&mut self) -> (out: Vec<u8>)
        requires
            old(self).wf(),
        ensures
            final(self).wf(),
            out@ == old(self)@.log_output,
            final(self)@ == (SessionView { log_output: Seq::empty(), ..old(self)@ }),
    {
        let mut out: Vec<u8> = Vec::new();
        std::mem::swap(&mut out, &mut self.log_out);
        out
    }

    /// The log as text; invalid UTF-8 shows as U+FFFD.
    pub fn log_text(&self) -> (s: String)
        ensures
            s@ == utf8_lossy(self@.log),
            vstd::utf8::valid_utf8(self@.log) ==> s@ == vstd::utf8::decode_utf8(self@.log),
    {
        lossy_text(self.log.as_slice())
    }

    /// Append `data` to the log as it is (no escape stripping; this is how
    /// the local echo of sent lines is logged), and to the log-file output
    /// while logging. The log keeps the last `MAX_LOG_BYTES` bytes of what
    /// it held followed by `data`.
    pub fn append_log(&mut self, data: &[u8])
        requires
            old(self).wf(),
        ensures
            final(self).wf(),
            final(self)@.log.len() == (if old(self)@.log.len() + data@.len() > MAX_LOG_BYTES {
                MAX_LOG_BYTES as int
            } else {
                old(self)@.log.len() + data@.len() as int
            }),
            final(self)@.log == (old(self)@.log + data@).subrange(
                old(self)@.log.len() + data@.len() - final(self)@.log.len(),
                old(self)@.log.len() + data@.len() as int,
            ),
            final(self)@ == (SessionView {
                log: capped(old(self)@.log + data@),
                log_output: if old(self)@.logging {
                    old(self)@.log_output + data@
                } else {
                    old(self)@.log_output
                },
                ..old(self)@
            }),
    {
        if self.log_file.is_some() {
            self.log_out.extend_from_slice(data);
            proof {
                assert(self.log_out@ =~= old(self)@.log_output + data@);
            }
        }
        self.log.extend_from_slice(data);
        proof {
            assert(self.log@ =~= old(self)@.log + data@);
        }
        if self.log.len() > MAX_LOG_BYTES {
            let excess = self.log.len() - MAX_LOG_BYTES;
            let kept = self.log.split_off(excess);
            self.log = kept;
        }
        proof {
            assert(self.log@ =~= capped(old(self)@.log + data@));
            lemma_capped(old(self)@.log + data@);
        }
    }

    /// Bytes that arrived from the connection: escape sequences are
    /// stripped (statefully, across calls) and the rest is logged.
    pub fn receive(&mut self, data: &[u8])
        requires
            old(self).wf(),
        ensures
            final(self).wf(),
            final(self)@ == received(old(self)@, data@),
    {
        if data.len() > 0 {
            let cleaned = self.ansi_filter.filter(data);
            self.append_log(cleaned.as_slice());
        } else {
            proof {
                assert(old(self)@.log + Seq::<u8>::empty() =~= old(self)@.log);
                assert(old(self)@.log_output + Seq::<u8>::empty() =~= old(self)@.log_output);
            }
        }
    }

    /// Drops the connection after a failure: closes it and records why.
    fn lose_connection(&mut self, status: String)
        requires
            old(self).wf(),
        ensures
            final(self).wf(),
            final(self)@ == dropped(old(self)@, status@),
    {
        self.status = status;
        self.connected = false;
        self.outbox = Vec::new();
        self.pending = None;
        if let Some(mut conn) = self.connection.take() {
            conn.close();
        }
        proof {
            assert(byte_lines(self.outbox@) =~= Seq::<Seq<u8>>::empty());
        }
    }

    /// Take what a read of the connection returned: every byte read is
    /// received (escape sequences stripped, the rest logged), and a read
    /// error drops the connection with a "Disconnected" status.
    pub fn read_done(&mut self, got: std::io::Result<Vec<u8>>)
        requires
            old(self).wf(),
        ensures
            final(self).wf(),
            got matches Ok(data) ==> final(self)@ == received(old(self)@, data@),
            got is Err ==> exists|reason: Seq<char>|
                final(self)@ == #[trigger] dropped(old(self)@, "Disconnected: "@ + reason),
    {
        match got {
            Ok(data) => {
                self.receive(data.as_slice());
            },
            Err(e) => {
                let reason = e.to_string();
                let status = status_text("Disconnected: ", reason.as_str());
                self.lose_connection(status);
            },
        }
    }

    /// Pull whatever the transport has and hand it to `read_done`. A read
    /// error (device unplugged, remote closed the channel) disconnects and
    /// says why in the status.
    pub fn poll_connection(&mut self)
        requires
            old(self).wf(),
        ensures
            final(self).wf(),
            !old(self)@.has_connection ==> final(self)@ == old(self)@,
            old(self)@.has_connection ==> {
                ||| exists|data: Seq<u8>| final(self)@ == #[trigger] received(old(self)@, data)
                ||| exists|reason: Seq<char>|
                    final(self)@ == #[trigger] dropped(old(self)@, "Disconnected: "@ + reason)
            },
    {
        let taken = self.connection.take();
        match taken {
            None => {},
            Some(mut conn) => {
                let got = conn.read_available();
                self.connection = Some(conn);
                self.read_done(got);
            },
        }
    }

    /// Close the connection cleanly; logging stops too, and lines still
    /// queued are not sent.
    pub fn disconnect(&mut self)
        requires
            old(self).wf(),
        ensures
            final(self).wf(),
            final(self)@ == (SessionView {
                has_connection: false,
                status: "Disconnected"@,
                connected: false,
                logging: false,
                log_path: Seq::empty(),
                queued: Seq::empty(),
                pending: None,
                ..old(self)@
            }),
    {
        if let Some(mut conn) = self.connection.take() {
            conn.close();
        }
        self.connected = false;
        self.status = String::from_str("Disconnected");
        self.log_file = None;
        self.outbox = Vec::new();
        self.pending = None;
        proof {
            assert(byte_lines(self.outbox@) =~= Seq::<Seq<u8>>::empty());
        }
    }

    /// Queue `text` for sending, one entry per line (as `str::lines` splits
    /// it). Nothing is queued while disconnected.
    pub fn queue_text(&mut self, text: &str)
        requires
            old(self).wf(),
        ensures
            final(self).wf(),
            !old(self)@.connected ==> final(self)@ == old(self)@,
            old(self)@.connected ==> final(self)@ == (SessionView {
                queued: old(self)@.queued + lines(vstd::utf8::encode_utf8(text@)),
                ..old(self)@
            }),
    {
        if !self.connected {
            return;
        }
        let mut new_lines = split_lines_bytes(text.as_bytes());
        let ghost before = self.outbox@;
        let ghost added = new_lines@;
        self.outbox.append(&mut new_lines);
        proof {
            assert(self.outbox@ == before + added);
            assert(byte_lines(before + added) =~= byte_lines(before) + byte_lines(added));
        }
    }

    /// Take the oldest queued line: it is echoed to the log (with the
    /// newline bytes) and its payload, the line followed by the newline
    /// bytes, is returned for `write_payload`. `None` when nothing is queued.
    pub fn next_payload(&mut self) -> (p: Option<Vec<u8>>)
        requires
            old(self).wf(),
        ensures
            final(self).wf(),
            old(self)@.queued.len() == 0 ==> p is None && final(self)@ == old(self)@,
            old(self)@.queued.len() > 0 ==> {
                let line = old(self)@.queued[0];
                let payload = line + newline_bytes(old(self)@.newline_mode);
                &&& p matches Some(q) && q@ == payload
                &&& final(self)@ == (SessionView {
                    queued: old(self)@.queued.drop_first(),
                    pending: Some(payload),
                    ..echoed(old(self)@, seq![line])
                })
            },
    {
        if self.outbox.len() == 0 {
            return None;
        }
        let ghost v = self@;
        let line = self.outbox.remove(0);
        proof {
            assert(line@ == v.queued[0]);
            assert(byte_lines(self.outbox@) =~= v.queued.drop_first());
        }
        let nl = self.newline_mode.as_bytes();
        let mut payload: Vec<u8> = Vec::new();
        payload.extend_from_slice(line.as_slice());
        payload.extend_from_slice(nl);
        self.append_log(line.as_slice());
        self.append_log(nl);
        self.pending = Some(payload.clone());
        proof {
            lemma_capped_append(v.log + line@, nl@);
            assert(echo(seq![line@], nl@) =~= line@ + nl@) by {
                assert(seq![line@].drop_last() =~= Seq::<Seq<u8>>::empty());
                assert(echo(Seq::<Seq<u8>>::empty(), nl@) =~= Seq::<u8>::empty());
            }
            assert(v.log + line@ + nl@ =~= v.log + echo(seq![line@], nl@));
            assert(v.log_output + line@ + nl@ =~= v.log_output + echo(seq![line@], nl@));
            assert(payload@ =~= line@ + nl@);
        }
        Some(payload)
    }

    /// Hand `payload`, the one `next_payload` gave out last, to the
    /// connection's `write_all` and return what it returned. Without a
    /// connection there is nothing to write to, and the result is `Ok`.
    pub fn write_payload(&mut self, payload: &[u8]) -> (r: std::io::Result<()>)
        requires
            old(self).wf(),
            old(self)@.pending == Some(payload@),
        ensures
            final(self).wf(),
            final(self)@ == old(self)@,
            !old(self)@.has_connection ==> r is Ok,
    {
        let taken = self.connection.take();
        match taken {
            None => Ok(()),
            Some(mut conn) => {
                let r = conn.write_all(payload);
                self.connection = Some(conn);
                r
            },
        }
    }

    /// Take the outcome of the last `write_payload`. A failed write drops
    /// the connection, says why in the status, and discards the rest of the
    /// queue.
    pub fn payload_written(&mut self, result: std::io::Result<()>)
        requires
            old(self).wf(),
        ensures
            final(self).wf(),
            result is Ok ==> final(self)@ == (SessionView { pending: None, ..old(self)@ }),
            result is Err ==> exists|reason: Seq<char>|
                final(self)@ == #[trigger] dropped(old(self)@, "Send failed: "@ + reason),
    {
        match result {
            Ok(()) => {
                self.pending = None;
            },
            Err(e) => {
                let reason = e.to_string();
                let status = status_text("Send failed: ", reason.as_str());
                self.lose_connection(status);
            },
        }
    }

    /// Send the queued lines one at a time, each echoed and then written
    /// with the configured newline. A failed write drops the connection and
    /// stops.
    pub fn send_queued(&mut self)
        requires
            old(self).wf(),
        ensures
            final(self).wf(),
            flushed(SessionView { pending: None, ..old(self)@ }, final(self)@),
    {
        self.pending = None;
        let ghost start = self@;
        let ghost total = start.queued.len();
        proof {
            lemma_sent_none(start);
        }
        while self.outbox.len() > 0
            invariant
                self.wf(),
                start.pending is None,
                start.log.len() <= MAX_LOG_BYTES,
                exists|n: int| 0 <= n <= total && self@ == #[trigger] sent_lines(start, n),
                total == start.queued.len(),
                start == (SessionView { pending: None, ..old(self)@ }),
            decreases self.outbox.len(),
        {
            let ghost n = choose|n: int| 0 <= n <= total && self@ == #[trigger] sent_lines(start, n);
            proof {
                assert(self@.queued == start.queued.skip(n));
                assert(n < total) by {
                    assert(byte_lines(self.outbox@).len() == self.outbox@.len());
                }
                assert(self@.queued[0] == start.queued[n]);
                lemma_sent_lines_step(start, n);
            }
            let p = self.next_payload();
            match p {
                None => {
                    return;
                },
                Some(payload) => {
                    let ghost mid = self@;
                    let r = self.write_payload(payload.as_slice());
                    let failed = r.is_err();
                    self.payload_written(r);
                    if failed {
                        proof {
                            let reason = choose|reason: Seq<char>|
                                self@ == #[trigger] dropped(mid, "Send failed: "@ + reason);
                            assert(self@ == dropped(sent_lines(start, n + 1), "Send failed: "@ + reason));
                        }
                        return;
                    }
                    proof {
                        assert(self@ == sent_lines(start, n + 1));
                        assert(byte_lines(self.outbox@).len() == self.outbox@.len());
                    }
                },
            }
        }
        proof {
            let n = choose|n: int| 0 <= n <= total && self@ == #[trigger] sent_lines(start, n);
            assert(byte_lines(self.outbox@).len() == self.outbox@.len());
            assert(n == total);
        }
    }

    /// Send `text` one line at a time, each followed by the configured
    /// newline, echoing each line to the log. A failed write drops the
    /// connection and stops. Nothing happens while disconnected.
    pub fn send_text(&mut self, text: &str)
        requires
            old(self).wf(),
        ensures
            final(self).wf(),
            !old(self)@.connected ==> final(self)@ == old(self)@,
            old(self)@.connected ==> flushed(
                SessionView {
                    queued: old(self)@.queued + lines(vstd::utf8::encode_utf8(text@)),
                    pending: None,
                    ..old(self)@
                },
                final(self)@,
            ),
    {
        if !self.connected {
            return;
        }
        self.queue_text(text);
        self.send_queued();
    }

    /// Queue the current input line for sending and clear the input box.
    /// Nothing happens while disconnected or when the input is empty.
    pub fn queue_current_input(&mut self)
        requires
            old(self).wf(),
        ensures
            final(self).wf(),
            !old(self)@.connected || old(self)@.input.len() == 0 ==> final(self)@ == old(self)@,
            old(self)@.connected && old(self)@.input.len() > 0 ==> final(self)@ == (SessionView {
                input: Seq::empty(),
                queued: old(self)@.queued + lines(vstd::utf8::encode_utf8(old(self)@.input)),
                ..old(self)@
            }),
    {
        if !self.connected || self.input.as_str().is_empty() {
            return;
        }
        let mut text = String::new();
        std::mem::swap(&mut text, &mut self.input);
        self.queue_text(text.as_str());
    }

    /// Send the current input line, then clear the input box. Nothing
    /// happens while disconnected or when the input is empty.
    pub fn send_current_input(&mut self)
        requires
            old(self).wf(),
        ensures
            final(self).wf(),
            !old(self)@.connected || old(self)@.input.len() == 0 ==> final(self)@ == old(self)@,
            old(self)@.connected && old(self)@.input.len() > 0 ==> flushed(
                SessionView {
                    input: Seq::empty(),
                    queued: old(self)@.queued + lines(vstd::utf8::encode_utf8(old(self)@.input)),
                    pending: None,
                    ..old(self)@
                },
                final(self)@,
            ),
    {
        if !self.connected || self.input.as_str().is_empty() {
            return;
        }
        self.queue_current_input();
        self.send_queued();
    }
}

} // verus!
