use rust_term_console::ssh::{
    read_outcome, ChannelWrite, ReadOutcome, ReadReport, WriteAction, WriteReport, MAX_WRITE_SPINS,
};

#[test]
fn read_reports_map_to_outcomes() {
    assert_eq!(read_outcome(ReadReport::Closed), ReadOutcome::RemoteClosed);
    assert_eq!(read_outcome(ReadReport::Read(0)), ReadOutcome::Nothing);
    assert_eq!(read_outcome(ReadReport::Read(12)), ReadOutcome::Bytes(12));
    assert_eq!(read_outcome(ReadReport::WouldBlock), ReadOutcome::Nothing);
    assert_eq!(read_outcome(ReadReport::Failed), ReadOutcome::Failed);
}

#[test]
fn partial_writes_then_flush() {
    let (mut w, a) = ChannelWrite::new(5);
    assert_eq!(a, WriteAction::Write);
    assert_eq!(w.step(WriteReport::Done(2)), WriteAction::Write);
    assert_eq!(w.written, 2);
    assert_eq!(w.step(WriteReport::WouldBlock), WriteAction::SleepThenWrite);
    assert_eq!(w.spins, 1);
    assert_eq!(w.step(WriteReport::Done(3)), WriteAction::Flush);
    assert!(w.flushing);
    assert_eq!(w.step(WriteReport::WouldBlock), WriteAction::SleepThenFlush);
    assert_eq!(w.step(WriteReport::Done(0)), WriteAction::Finished);
}

#[test]
fn empty_payload_only_flushes() {
    let (w, a) = ChannelWrite::new(0);
    assert_eq!(a, WriteAction::Flush);
    assert!(w.flushing);
}

#[test]
fn busy_channel_times_out_after_the_limit() {
    let (mut w, _) = ChannelWrite::new(1);
    for _ in 0..MAX_WRITE_SPINS {
        assert_eq!(w.step(WriteReport::WouldBlock), WriteAction::SleepThenWrite);
    }
    assert_eq!(w.spins, 2000);
    assert_eq!(w.step(WriteReport::WouldBlock), WriteAction::TimedOut);
}

#[test]
fn other_errors_give_up() {
    let (mut w, _) = ChannelWrite::new(3);
    assert_eq!(w.step(WriteReport::Failed), WriteAction::GiveUp);
    let (mut w, _) = ChannelWrite::new(0);
    assert_eq!(w.step(WriteReport::Failed), WriteAction::GiveUp);
}
