use rust_term_console::connection::{Connection, NewlineMode};
use rust_term_console::session::{Session, MAX_LOG_BYTES};

struct MockConnection {
    incoming: Vec<u8>,
    sent: Vec<Vec<u8>>,
    fail_reads: bool,
    fail_writes_after: Option<usize>,
}

impl MockConnection {
    fn new(incoming: &[u8]) -> Self {
        MockConnection { incoming: incoming.to_vec(), sent: Vec::new(), fail_reads: false, fail_writes_after: None }
    }
}

impl Connection for MockConnection {
    fn read_available(&mut self) -> std::io::Result<Vec<u8>> {
        if self.fail_reads {
            return Err(std::io::Error::new(std::io::ErrorKind::ConnectionAborted, "gone"));
        }
        Ok(std::mem::take(&mut self.incoming))
    }
    fn write_all(&mut self, data: &[u8]) -> std::io::Result<()> {
        if let Some(n) = self.fail_writes_after {
            if self.sent.len() >= n {
                return Err(std::io::Error::new(std::io::ErrorKind::BrokenPipe, "broken"));
            }
        }
        self.sent.push(data.to_vec());
        Ok(())
    }
    fn describe(&self) -> String {
        "mock".to_string()
    }
    fn close(&mut self) {}
}

#[test]
fn log_file_mirrors_output_and_sent_lines() {
    let conn = MockConnection::new(b"\x1b[32mhello\x1b[0m\r\n");
    let mut session = Session::new(conn, NewlineMode::Lf);
    session.set_log_file("session.log".to_string());
    session.poll_connection();
    session.send_text("ls");
    session.disconnect();

    assert_eq!(session.take_log_output(), b"# mock\nhello\nls\n");
}

#[test]
fn log_can_start_and_stop_mid_session() {
    let conn = MockConnection::new(b"");
    let mut session = Session::new(conn, NewlineMode::Lf);
    session.send_text("before");
    session.start_log("session.log".to_string());
    assert!(session.log_path().is_some());
    session.send_text("during");
    session.stop_log();
    assert!(session.log_path().is_none());
    session.send_text("after");

    assert_eq!(session.take_log_output(), b"# mock\nduring\n");
    assert_eq!(session.log_text(), "before\nduring\nafter\n");
}

#[test]
fn new_session_state() {
    let session = Session::new(MockConnection::new(b""), NewlineMode::CrLf);
    assert_eq!(session.connection_label(), "mock");
    assert_eq!(session.status, "Connected");
    assert!(session.connected);
    assert!(session.log_path().is_none());
    assert_eq!(session.log_text(), "");
}

#[test]
fn send_text_splits_lines_and_appends_newline() {
    let mut session = Session::new(MockConnection::new(b""), NewlineMode::CrLf);
    session.send_text("a\r\nb\n\nc\n");
    assert_eq!(session.log_text(), "a\r\nb\r\n\r\nc\r\n");
}

#[test]
fn send_current_input_clears_input() {
    let mut session = Session::new(MockConnection::new(b""), NewlineMode::Raw);
    session.input = "echo hi".to_string();
    session.send_current_input();
    assert_eq!(session.input, "");
    assert_eq!(session.log_text(), "echo hi");
}

#[test]
fn empty_input_sends_nothing() {
    let mut session = Session::new(MockConnection::new(b""), NewlineMode::Lf);
    session.send_current_input();
    assert_eq!(session.log_text(), "");
}

#[test]
fn read_error_disconnects() {
    let mut conn = MockConnection::new(b"");
    conn.fail_reads = true;
    let mut session = Session::new(conn, NewlineMode::Lf);
    session.poll_connection();
    assert!(!session.connected);
    assert_eq!(session.status, "Disconnected: gone");
    session.send_text("ignored");
    assert_eq!(session.log_text(), "");
}

#[test]
fn write_error_stops_sending_after_echo() {
    let mut conn = MockConnection::new(b"");
    conn.fail_writes_after = Some(1);
    let mut session = Session::new(conn, NewlineMode::Lf);
    session.send_text("one\ntwo\nthree");
    assert!(!session.connected);
    assert_eq!(session.status, "Send failed: broken");
    assert_eq!(session.log_text(), "one\ntwo\n");
}

#[test]
fn log_write_failure_stops_logging() {
    let mut session = Session::new(MockConnection::new(b"x"), NewlineMode::Lf);
    session.start_log("/nowhere/log".to_string());
    session.log_write_failed("disk full");
    assert!(session.log_path().is_none());
    assert_eq!(session.status, "Log write failed, logging stopped: disk full");
    session.poll_connection();
    assert_eq!(session.take_log_output(), b"");
    assert!(session.connected);
}

#[test]
fn disconnect_sets_status() {
    let mut session = Session::new(MockConnection::new(b""), NewlineMode::Lf);
    session.start_log("p".to_string());
    session.disconnect();
    assert!(!session.connected);
    assert_eq!(session.status, "Disconnected");
    assert!(session.log_path().is_none());
}

#[test]
fn log_is_capped() {
    let mut session = Session::new(MockConnection::new(b""), NewlineMode::Raw);
    let big = "x".repeat(MAX_LOG_BYTES);
    session.receive(big.as_bytes());
    session.receive(b"tail");
    let text = session.log_text();
    assert_eq!(text.len(), MAX_LOG_BYTES);
    assert!(text.ends_with("xtail"));
}

#[test]
fn receive_across_chunks_strips_sequence() {
    let mut session = Session::new(MockConnection::new(b""), NewlineMode::Raw);
    session.receive(b"ab\x1b[3");
    session.receive(b"1mcd");
    assert_eq!(session.log_text(), "abcd");
}

#[test]
fn invalid_utf8_shows_replacement() {
    let mut session = Session::new(MockConnection::new(b""), NewlineMode::Raw);
    session.receive(b"a\xffb");
    assert_eq!(session.log_text(), "a\u{fffd}b");
}

struct RecordingConnection {
    sent: std::rc::Rc<std::cell::RefCell<Vec<Vec<u8>>>>,
}

impl Connection for RecordingConnection {
    fn read_available(&mut self) -> std::io::Result<Vec<u8>> {
        Ok(Vec::new())
    }
    fn write_all(&mut self, data: &[u8]) -> std::io::Result<()> {
        self.sent.borrow_mut().push(data.to_vec());
        Ok(())
    }
    fn describe(&self) -> String {
        "rec".to_string()
    }
    fn close(&mut self) {}
}

#[test]
fn send_text_writes_each_line_with_newline() {
    let sent = std::rc::Rc::new(std::cell::RefCell::new(Vec::new()));
    let mut session = Session::new(RecordingConnection { sent: sent.clone() }, NewlineMode::CrLf);
    session.send_text("a\r\nb\n\nc");
    assert_eq!(*sent.borrow(), vec![b"a\r\n".to_vec(), b"b\r\n".to_vec(), b"\r\n".to_vec(), b"c\r\n".to_vec()]);
}

#[test]
fn payloads_come_one_line_at_a_time() {
    let sent = std::rc::Rc::new(std::cell::RefCell::new(Vec::new()));
    let mut session = Session::new(RecordingConnection { sent: sent.clone() }, NewlineMode::CrLf);
    session.queue_text("a\nbc");
    assert_eq!(session.log_text(), "");
    let p = session.next_payload().unwrap();
    assert_eq!(p, b"a\r\n");
    assert_eq!(session.log_text(), "a\r\n");
    let r = session.write_payload(&p);
    assert!(r.is_ok());
    session.payload_written(r);
    assert_eq!(*sent.borrow(), vec![b"a\r\n".to_vec()]);
    let p = session.next_payload().unwrap();
    assert_eq!(p, b"bc\r\n");
    let r = session.write_payload(&p);
    session.payload_written(r);
    assert!(session.next_payload().is_none());
    assert_eq!(*sent.borrow(), vec![b"a\r\n".to_vec(), b"bc\r\n".to_vec()]);
    assert_eq!(session.log_text(), "a\r\nbc\r\n");
}

#[test]
fn failed_write_discards_queue() {
    let mut session = Session::new(MockConnection::new(b""), NewlineMode::Lf);
    session.queue_text("one\ntwo");
    let _ = session.next_payload().unwrap();
    session.payload_written(Err(std::io::Error::new(std::io::ErrorKind::BrokenPipe, "pipe")));
    assert!(!session.connected);
    assert_eq!(session.status, "Send failed: pipe");
    assert!(session.next_payload().is_none());
    assert_eq!(session.log_text(), "one\n");
}

#[test]
fn queue_current_input_moves_input_to_queue() {
    let mut session = Session::new(MockConnection::new(b""), NewlineMode::Lf);
    session.input = "x\ny".to_string();
    session.queue_current_input();
    assert_eq!(session.input, "");
    assert_eq!(session.next_payload().unwrap(), b"x\n");
    assert_eq!(session.next_payload().unwrap(), b"y\n");
    assert!(session.next_payload().is_none());
}

#[test]
fn nothing_is_queued_while_disconnected() {
    let mut session = Session::new(MockConnection::new(b""), NewlineMode::Lf);
    session.queue_text("kept");
    session.disconnect();
    assert!(session.next_payload().is_none());
    session.queue_text("late");
    assert!(session.next_payload().is_none());
    assert_eq!(session.log_text(), "");
}

#[test]
fn append_log_keeps_the_last_bytes() {
    let mut session = Session::new(MockConnection::new(b""), NewlineMode::Raw);
    session.append_log(&vec![b'a'; MAX_LOG_BYTES - 2]);
    session.append_log(b"\x1b[0mxyz");
    let text = session.log_text();
    assert_eq!(text.len(), MAX_LOG_BYTES);
    assert!(text.ends_with("aa\x1b[0mxyz"));
    assert!(text.starts_with("aaaa"));
}
