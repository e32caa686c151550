use denon_control::denon_connection::read;
use denon_control::stream::{FakeStream, FaultyStream, TransportError};

#[test]
fn read_without_valid_content_returns_empty_vec() {
    let mut client = FakeStream::new();

    // as \r is missing, read() does not read or extract anything
    client.feed("blub".as_bytes());
    let lines = read(&mut client, 1).unwrap();
    assert_eq!(lines, Vec::<String>::new());

    // read() reads until \r and leaves other data in the stream
    client.feed("bla\rfoo".as_bytes());
    let lines = read(&mut client, 2).unwrap();
    assert_eq!(lines, vec!["blubbla".to_owned()]);
}

#[test]
fn read_frames_multiple_lines_from_one_feed() {
    let mut client = FakeStream::new();
    client.feed("MV234\rSICD\rPWON\r".as_bytes());
    let lines = read(&mut client, 3).unwrap();
    assert_eq!(lines, vec!["MV234", "SICD", "PWON"]);
    for line in &lines {
        assert!(denon_control::parse::parse(line).is_some());
    }
}

#[test]
fn read_on_ended_stream_reports_local_shutdown() {
    let mut client = FakeStream::new();
    assert_eq!(Err(TransportError::ClosedLocally), read(&mut client, 1));
}

#[test]
fn read_returns_lines_before_stream_end() {
    let mut client = FakeStream::new();
    client.feed("some_data\r".as_bytes());
    let lines = read(&mut client, 2).unwrap();
    assert_eq!(vec![String::from("some_data")], lines);
}

#[test]
fn read_leaves_an_oversized_fragment_unconsumed() {
    let mut client = FakeStream::new();
    let long = ["x"; 120].concat();
    client.feed(long.as_bytes());
    let lines = read(&mut client, 1).unwrap();
    assert_eq!(lines, Vec::<String>::new());
}

#[test]
fn read_reads_content_gets_error_and_returns_content() {
    // peek works, read works, then a peek fails: the line collected
    // before the fault comes back.
    let mut mstream = FaultyStream::with_plan(
        b"some_data\r".to_vec(),
        vec![None, None, Some(TransportError::Other)],
    );
    let lines = read(&mut mstream, 2).unwrap();
    assert_eq!(vec![String::from("some_data")], lines);
}

#[test]
fn an_early_fault_propagates_out_of_read() {
    let mut mstream = FaultyStream::with_plan(
        b"some_data\r".to_vec(),
        vec![Some(TransportError::Other)],
    );
    assert_eq!(Err(TransportError::Other), read(&mut mstream, 1));
}

#[test]
fn transient_errors_are_the_timeout_class() {
    assert!(TransportError::TimedOut.is_transient());
    assert!(TransportError::WouldBlock.is_transient());
    assert!(!TransportError::ClosedLocally.is_transient());
    assert!(!TransportError::Other.is_transient());
}

#[test]
fn a_line_that_is_not_text_is_consumed_and_dropped() {
    let mut client = FakeStream::new();
    client.feed(&[0xFF, 0xFE, 0x0D]);
    client.feed("PWON\r".as_bytes());
    let lines = read(&mut client, 1).unwrap();
    assert_eq!(lines, Vec::<String>::new());
    let lines = read(&mut client, 1).unwrap();
    assert_eq!(lines, vec!["PWON"]);
}
