use tun2socks::mailbox::Mailbox;
use tun2socks::stack::{NetStack, ReadPoll, StackWriteError};

#[test]
fn mailbox_is_first_in_first_out() {
    let mut m: Mailbox<u32> = Mailbox::new();
    assert!(!m.push(1));
    assert!(!m.push(2));
    assert!(!m.push(3));
    assert_eq!(m.len(), 3);
    assert_eq!(m.front(), Some(&1));
    assert_eq!(m.poll(), Some(1));
    assert_eq!(m.poll(), Some(2));
    assert_eq!(m.poll(), Some(3));
    assert_eq!(m.poll(), None);
}

#[test]
fn mailbox_wakes_a_waiting_consumer_once() {
    let mut m: Mailbox<&str> = Mailbox::new();
    assert!(!m.is_waiting());
    assert_eq!(m.poll(), None);
    assert!(m.is_waiting());
    assert!(m.push("a"));
    assert!(!m.is_waiting());
    assert!(!m.push("b"));
    assert_eq!(m.poll(), Some("a"));
    assert_eq!(m.poll(), Some("b"));
}

#[test]
fn stack_output_reports_length_only_when_reader_waits() {
    let mut s = NetStack::new();
    assert_eq!(s.output(vec![1, 2, 3]), (0, false));
    let mut buf = [0u8; 8];
    assert_eq!(s.poll_read(&mut buf), ReadPoll::Ready(3));
    assert_eq!(s.poll_read(&mut buf), ReadPoll::Pending);
    assert_eq!(s.output(vec![9; 5]), (5, true));
    assert_eq!(s.output(vec![7]), (0, false));
}

#[test]
fn stack_read_copies_packets_in_order() {
    let mut s = NetStack::new();
    s.output(vec![1, 2, 3]);
    s.output(vec![4, 5]);
    let mut buf = [0xaau8; 6];
    assert_eq!(s.poll_read(&mut buf), ReadPoll::Ready(3));
    assert_eq!(buf, [1, 2, 3, 0xaa, 0xaa, 0xaa]);
    assert_eq!(s.poll_read(&mut buf), ReadPoll::Ready(2));
    assert_eq!(buf, [4, 5, 3, 0xaa, 0xaa, 0xaa]);
    assert_eq!(s.poll_read(&mut buf), ReadPoll::Pending);
    assert_eq!(buf, [4, 5, 3, 0xaa, 0xaa, 0xaa]);
}

#[test]
fn stack_input_outcome() {
    assert_eq!(NetStack::input_outcome(40, Some(0)), Ok(40));
    assert_eq!(NetStack::input_outcome(40, Some(-1)), Err(StackWriteError::InputFailed));
    assert_eq!(NetStack::input_outcome(40, Some(-12)), Err(StackWriteError::InputFailed));
    assert_eq!(NetStack::input_outcome(40, None), Err(StackWriteError::NoInputFn));
    assert_eq!(StackWriteError::InputFailed.message(), "input failed");
    assert_eq!(StackWriteError::NoInputFn.message(), "none input fn");
}

#[test]
fn mailbox_interleaved_pushes_and_polls_keep_order() {
    let mut m: Mailbox<u32> = Mailbox::new();
    let mut out = Vec::new();
    let mut next = 0u32;
    for round in 0..20u32 {
        for _ in 0..(round % 3) {
            m.push(next);
            next += 1;
        }
        for _ in 0..(round % 2 + 1) {
            if let Some(x) = m.poll() {
                out.push(x);
            }
        }
    }
    while let Some(x) = m.poll() {
        out.push(x);
    }
    assert_eq!(out, (0..next).collect::<Vec<u32>>());
}
