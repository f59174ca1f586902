use statsd_mock::capture::{DecodeError, LoopControl, Receiver, RecvOutcome, MAX_DATAGRAM};

fn sent(text: &str) -> RecvOutcome {
    RecvOutcome::Datagram(text.as_bytes().to_vec())
}

/// Runs the loop's decisions over the outcomes, the action being seen as
/// finished from the attempt at `finished_from` on.
fn run(outcomes: Vec<RecvOutcome>, finished_from: usize) -> Receiver {
    let mut rx = Receiver::new();
    for (i, o) in outcomes.into_iter().enumerate() {
        if rx.step(o, i >= finished_from) == LoopControl::Stop {
            break;
        }
    }
    rx
}

#[test]
fn nothing_sent_gives_nothing() {
    let rx = run(vec![RecvOutcome::TimedOut, RecvOutcome::TimedOut, RecvOutcome::TimedOut], 2);
    assert_eq!(rx.len(), 0);
    assert_eq!(rx.lines(), Ok(Vec::<String>::new()));
    assert_eq!(rx.text(), Ok(String::new()));
}

#[test]
fn one_increment_is_captured() {
    let rx = run(vec![sent("myapp.some.counter:1|c"), RecvOutcome::TimedOut], 1);
    assert_eq!(rx.text(), Ok(String::from("myapp.some.counter:1|c")));
}

#[test]
fn three_packets_in_order() {
    let rx = run(
        vec![
            sent("duyet.some.counter:1|c"),
            RecvOutcome::TimedOut,
            sent("duyet.some.counter2:1|c"),
            sent("duyet.some.counter3:123|c"),
            RecvOutcome::TimedOut,
        ],
        4,
    );
    assert_eq!(
        rx.lines().unwrap(),
        vec!["duyet.some.counter:1|c", "duyet.some.counter2:1|c", "duyet.some.counter3:123|c"]
    );
}

#[test]
fn decrement_keeps_its_sign() {
    let rx = run(vec![sent("duyet.some.counter:-1|c"), RecvOutcome::TimedOut], 1);
    assert_eq!(rx.text().unwrap(), "duyet.some.counter:-1|c");
}

#[test]
fn count_is_captured() {
    let rx = run(vec![RecvOutcome::TimedOut, sent("duyet.some.counter:123|c")], 1);
    assert_eq!(rx.text().unwrap(), "duyet.some.counter:123|c");
}

#[test]
fn text_is_lines_joined_by_newline() {
    let rx = run(vec![sent("a:1|c"), sent("b:2|g"), sent("c:3|ms")], 2);
    assert_eq!(rx.text().unwrap(), rx.lines().unwrap().join("\n"));
    assert_eq!(rx.text().unwrap(), "a:1|c\nb:2|g\nc:3|ms");
}

#[test]
fn packet_on_the_last_attempt_is_kept() {
    let mut rx = Receiver::new();
    assert_eq!(rx.step(RecvOutcome::TimedOut, false), LoopControl::Continue);
    assert_eq!(rx.step(sent("late:1|c"), true), LoopControl::Stop);
    assert_eq!(rx.lines().unwrap(), vec!["late:1|c"]);
}

#[test]
fn loop_stops_only_once_finished() {
    let mut rx = Receiver::new();
    assert_eq!(rx.step(RecvOutcome::TimedOut, false), LoopControl::Continue);
    assert_eq!(rx.step(sent("x:1|c"), false), LoopControl::Continue);
    assert_eq!(rx.step(RecvOutcome::TimedOut, true), LoopControl::Stop);
    assert_eq!(rx.len(), 1);
}

#[test]
fn same_packet_twice_is_held_twice() {
    let rx = run(vec![sent("a:1|c"), sent("a:1|c")], 1);
    assert_eq!(rx.lines().unwrap(), vec!["a:1|c", "a:1|c"]);
}

#[test]
fn bytes_that_are_not_text_are_reported() {
    let rx = run(
        vec![sent("ok:1|c"), RecvOutcome::Datagram(vec![0x66, 0xff, 0x66]), sent("z:1|c")],
        2,
    );
    assert_eq!(rx.lines(), Err(DecodeError { index: 1 }));
    assert_eq!(rx.text(), Err(DecodeError { index: 1 }));
}

#[test]
fn multibyte_text_is_decoded() {
    let rx = run(vec![RecvOutcome::Datagram(vec![0x63, 0xc3, 0xa9, 0x3a, 0x31])], 0);
    assert_eq!(rx.text().unwrap(), "c\u{e9}:1");
}

#[test]
fn datagram_takes_the_received_length() {
    let mut buf = [0u8; MAX_DATAGRAM];
    buf[..5].copy_from_slice(b"k:1|c");
    let mut rx = Receiver::new();
    rx.step(RecvOutcome::datagram(&buf, 5), true);
    assert_eq!(rx.text().unwrap(), "k:1|c");
}

#[test]
fn empty_datagram_is_an_empty_line() {
    let buf = [0u8; 8];
    let rx = run(vec![RecvOutcome::datagram(&buf, 0), sent("a:1|c")], 1);
    assert_eq!(rx.lines().unwrap(), vec!["", "a:1|c"]);
    assert_eq!(rx.text().unwrap(), "\na:1|c");
}
