use makcu_rs::commands::{frame_tracked, serial_command};
use makcu_rs::mock::mock_reply;
use makcu_rs::buttons::MouseButtonStates;
use makcu_rs::pending::{LineRoute, PendingTable};
use makcu_rs::reader::{LineReader, ReaderEvent};
use makcu_rs::sent_log::{SentLog, SENT_LOG_CAPACITY};

fn lines(events: &[ReaderEvent]) -> Vec<Vec<u8>> {
    events
        .iter()
        .map(|e| match e {
            ReaderEvent::Line(v) => v.clone(),
            ReaderEvent::Buttons(_) => panic!("unexpected button report"),
        })
        .collect()
}

#[test]
fn single_control_byte_is_a_button_report() {
    let mut r = LineReader::new();
    let ev = r.feed(&[0x03]);
    assert_eq!(ev.len(), 1);
    match &ev[0] {
        ReaderEvent::Buttons(s) => assert_eq!(*s, MouseButtonStates::from_mask(3)),
        _ => panic!(),
    }
    assert_eq!(r.len(), 0);
    // A lone line feed is not a button report.
    assert!(r.feed(b"\n").is_empty());
    // Two control bytes are text.
    assert!(r.feed(&[0x01, 0x02]).is_empty());
    assert_eq!(r.len(), 2);
}

#[test]
fn lines_split_and_stripped() {
    let mut r = LineReader::new();
    assert!(r.feed(b"km.ver").is_empty());
    assert_eq!(r.len(), 6);
    let ev = r.feed(b"sion()\r\nOK\n\r\n\npart");
    assert_eq!(lines(&ev), vec![b"km.version()".to_vec(), b"OK".to_vec()]);
    assert_eq!(r.len(), 4);
    let ev = r.feed(b"ial\r\n");
    assert_eq!(lines(&ev), vec![b"partial".to_vec()]);
    assert_eq!(r.len(), 0);
}

#[test]
fn reads_cut_anywhere_give_the_same_lines() {
    let stream: &[u8] = b">>> km.move(1,2)\r\n#3:OK\r\nhello\nx";
    let mut whole = LineReader::new();
    let all = lines(&whole.feed(stream));
    let is_report = |p: &[u8]| p.len() == 1 && p[0] < 32 && p[0] != b'\r' && p[0] != b'\n';
    for cut in 0..=stream.len() {
        let (a, b) = stream.split_at(cut);
        if is_report(a) || is_report(b) {
            continue;
        }
        let mut r = LineReader::new();
        let mut got = lines(&r.feed(a));
        got.extend(lines(&r.feed(b)));
        assert_eq!(got, all, "cut at {cut}");
        assert_eq!(r.len(), whole.len());
    }
}

#[test]
fn tracked_reply_goes_to_its_command() {
    let log = SentLog::new();
    let mut t: PendingTable<&str> = PendingTable::new();
    assert_eq!(t.register(7, "seven"), None);
    assert_eq!(t.register(8, "eight"), None);
    match t.route_line(b">>> OK#7:serial=AB:C", &log) {
        LineRoute::Reply { id, waiter, payload, by_id } => {
            assert!(by_id);
            assert_eq!(id, 7);
            assert_eq!(waiter, "seven");
            assert_eq!(payload, b"serial=AB:C".to_vec());
        }
        LineRoute::Dropped => panic!(),
    }
    assert_eq!(t.len(), 1);
    // The id no longer waits: the same reply is dropped.
    assert!(matches!(t.route_line(b"#7:OK", &log), LineRoute::Dropped));
    assert_eq!(t.len(), 1);
    // A carriage return also ends the id.
    match t.route_line(b"#+8\rrest", &log) {
        LineRoute::Reply { id, payload, .. } => {
            assert_eq!(id, 8);
            assert_eq!(payload, b"rest".to_vec());
        }
        LineRoute::Dropped => panic!(),
    }
    assert!(t.is_empty());
}

#[test]
fn untracked_line_goes_to_some_waiting_command() {
    let mut log = SentLog::new();
    let mut t: PendingTable<u8> = PendingTable::new();
    // Nobody waits: dropped.
    assert!(matches!(t.route_line(b"hello", &log), LineRoute::Dropped));
    t.register(1, 10);
    log.record(b"km.version()");
    // The echo of a sent command is dropped, with or without the prompt.
    assert!(matches!(t.route_line(b">>> km.version()", &log), LineRoute::Dropped));
    assert!(matches!(t.route_line(b">>>km.version()", &log), LineRoute::Dropped));
    assert!(matches!(t.route_line(b"km.version()", &log), LineRoute::Dropped));
    assert_eq!(t.len(), 1);
    // A line whose id does not parse is untracked.
    match t.route_line(b">>> km.MAKCU v3#x:1", &log) {
        LineRoute::Reply { id, waiter, payload, by_id } => {
            assert!(!by_id);
            assert_eq!((id, waiter), (1, 10));
            assert_eq!(payload, b"km.MAKCU v3#x:1".to_vec());
        }
        LineRoute::Dropped => panic!(),
    }
    assert!(t.is_empty());
}

#[test]
fn cancel_and_take_all() {
    let mut t: PendingTable<u32> = PendingTable::new();
    for id in 1..=5u32 {
        t.register(id, id * 100);
    }
    assert_eq!(t.register(3, 333), Some(300));
    assert_eq!(t.cancel(2), Some(200));
    assert_eq!(t.cancel(2), None);
    let mut all = t.take_all();
    all.sort();
    assert_eq!(all, vec![(1, 100), (3, 333), (4, 400), (5, 500)]);
    assert!(t.is_empty());
    assert_eq!(t.len(), 0);
}

#[test]
fn sent_log_keeps_the_most_recent() {
    let mut log = SentLog::new();
    for i in 0..(SENT_LOG_CAPACITY + 5) {
        log.record(format!("cmd{i}").as_bytes());
        assert!(log.contains(format!("cmd{i}").as_bytes()));
    }
    assert_eq!(log.len(), SENT_LOG_CAPACITY);
    for i in 0..5 {
        assert!(!log.contains(format!("cmd{i}").as_bytes()));
    }
    for i in 5..(SENT_LOG_CAPACITY + 5) {
        assert!(log.contains(format!("cmd{i}").as_bytes()));
    }
    assert!(!log.contains(b"cmd"));
}

#[test]
fn tracked_command_round_trip_through_the_simulated_device() {
    let log = SentLog::new();
    let mut t: PendingTable<&str> = PendingTable::new();
    for id in [1u32, 4294967295, 100] {
        t.register(id, "waiting");
        let wire = frame_tracked(&serial_command("x"), id);
        let reply = mock_reply(&wire).unwrap();
        let mut r = LineReader::new();
        let events = r.feed(&reply);
        assert_eq!(events.len(), 1);
        let line = match &events[0] {
            ReaderEvent::Line(l) => l.clone(),
            _ => panic!(),
        };
        match t.route_line(&line, &log) {
            LineRoute::Reply { id: got, payload, by_id, .. } => {
                assert!(by_id);
                assert_eq!(got, id);
                assert_eq!(payload, b"OK".to_vec());
            }
            LineRoute::Dropped => panic!(),
        }
    }
    assert!(t.is_empty());
}
