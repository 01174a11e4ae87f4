use plexus::bench::data::OrderUpdate;
use plexus::bench::tcp::{TcpAction, frame_len, frame_prefix, tcp_step};

#[test]
fn frame_prefix_is_little_endian_u32() {
    assert_eq!(frame_prefix(0x0102_0304), Some(vec![0x04, 0x03, 0x02, 0x01]));
    assert_eq!(frame_prefix(0), Some(vec![0, 0, 0, 0]));
    assert_eq!(frame_prefix(u32::MAX as usize), Some(vec![0xFF; 4]));
}

#[test]
fn frame_prefix_refuses_lengths_beyond_u32() {
    if usize::BITS > 32 {
        assert_eq!(frame_prefix(u32::MAX as usize + 1), None);
    }
}

#[test]
fn frame_len_reads_back_the_prefix() {
    for len in [0_usize, 1, 255, 256, 65_537, 123_456_789] {
        let prefix = frame_prefix(len).expect("fits");
        assert_eq!(frame_len(&prefix) as usize, len);
    }
}

#[test]
fn tcp_step_sends_then_checks_echoes() {
    assert_eq!(tcp_step(0, 2, None), TcpAction::Send(OrderUpdate::synthetic(0)));
    assert_eq!(tcp_step(1, 2, Some(0)), TcpAction::Send(OrderUpdate::synthetic(1)));
    assert_eq!(tcp_step(2, 2, Some(1)), TcpAction::Done);
    assert_eq!(tcp_step(0, 0, None), TcpAction::Done);
}

#[test]
fn tcp_step_reports_a_wrong_echo() {
    assert_eq!(
        tcp_step(2, 5, Some(7)),
        TcpAction::Mismatch { expected: 1, got: 7 }
    );
    // A wrong last echo is reported before the run counts as done.
    assert_eq!(
        tcp_step(3, 3, Some(0)),
        TcpAction::Mismatch { expected: 2, got: 0 }
    );
}
