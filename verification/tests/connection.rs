use denon_control::denon_connection::{
    print_status, read, thread_func_impl, write_state, Cache, DenonConnection, State,
};
use denon_control::parse::{PowerState, SourceInputState};
use denon_control::state::{SetState, StateValue};
use denon_control::stream::{FakeStream, FaultyStream, TransportError};

/// The lines the facade has written, framed as its peer would read them.
fn written_lines(dc_written: String, lines: u8) -> Vec<String> {
    let mut peer = FakeStream::new();
    peer.feed(dc_written.as_bytes());
    read(&mut peer, lines).unwrap()
}

#[test]
fn connection_gets_no_reply_and_returns_unknown() {
    let mut dc = DenonConnection::new(FakeStream::new());
    let rc = dc.get(State::MainVolume).unwrap();
    assert_eq!(rc, StateValue::Unknown);
    let written = dc.transport_ref().written_text();
    assert_eq!(written_lines(written.clone(), 1), vec!["MV?"]);
    assert_eq!("MV?\r", written);
}

#[test]
fn connection_sends_main_volume_to_receiver() {
    let mut dc = DenonConnection::new(FakeStream::new());
    dc.set(SetState::MainVolume(666)).unwrap();
    let received = written_lines(dc.transport_ref().written_text(), 1);
    assert_eq!("MV666", received[0]);
}

#[test]
fn connection_sends_max_volume_to_receiver() {
    let mut dc = DenonConnection::new(FakeStream::new());
    dc.set(SetState::MaxVolume(666)).unwrap();
    let received = written_lines(dc.transport_ref().written_text(), 1);
    assert_eq!("MVMAX666", received[0]);
}

#[test]
fn connection_sends_source_input_to_receiver() {
    let mut dc = DenonConnection::new(FakeStream::new());
    dc.set(SetState::SourceInput(SourceInputState::Fvp)).unwrap();
    let received = written_lines(dc.transport_ref().written_text(), 1);
    assert_eq!("SIFVP", received[0]);
    assert_eq!("SIFVP\r", dc.transport_ref().written_text());
}

#[test]
fn connection_sends_power_to_receiver() {
    let mut dc = DenonConnection::new(FakeStream::new());
    dc.set(SetState::Power(PowerState::On)).unwrap();
    let received = written_lines(dc.transport_ref().written_text(), 1);
    assert_eq!("PWON", received[0]);
}

#[test]
fn connection_receives_volume_from_receiver() {
    let mut dc = DenonConnection::new(FakeStream::new());
    let mut device = FakeStream::new();
    device.feed("MV234\r".as_bytes());
    dc.run_sync(&mut device, 10).unwrap();
    assert_eq!(dc.get(State::MainVolume).unwrap(), StateValue::Integer(234));
}

#[test]
fn connection_receives_multiple_values_volume_from_receiver() {
    let mut dc = DenonConnection::new(FakeStream::new());
    assert_eq!(StateValue::Unknown, dc.get(State::MainVolume).unwrap());
    assert_eq!(StateValue::Unknown, dc.get(State::SourceInput).unwrap());
    assert_eq!(StateValue::Unknown, dc.get(State::Power).unwrap());
    let mut device = FakeStream::new();
    device.feed("MV234\rSICD\rPWON\r".as_bytes());
    dc.run_sync(&mut device, 10).unwrap();
    assert_eq!(dc.get(State::MainVolume).unwrap(), StateValue::Integer(234));
    assert_eq!(
        dc.get(State::SourceInput).unwrap(),
        StateValue::SourceInput(SourceInputState::Cd)
    );
    assert_eq!(
        dc.get(State::Power).unwrap(),
        StateValue::Power(PowerState::On)
    );
}

#[test]
fn connection_updates_values_with_newly_received_data() {
    let mut dc = DenonConnection::new(FakeStream::new());
    let mut device = FakeStream::new();
    device.feed("MV234\r".as_bytes());
    dc.run_sync(&mut device, 10).unwrap();
    assert_eq!(dc.get(State::MainVolume).unwrap(), StateValue::Integer(234));
    device.feed("MV320\r".as_bytes());
    dc.run_sync(&mut device, 10).unwrap();
    assert_eq!(dc.get(State::MainVolume).unwrap(), StateValue::Integer(320));
}

#[test]
fn sync_loop_fills_cache_from_power_report() {
    // A device that only ever says it is on leaves exactly that in the
    // cache once the sync loop has run.
    let mut dc = DenonConnection::new(FakeStream::new());
    let mut device = FakeStream::new();
    device.feed("PWON\r".as_bytes());
    dc.run_sync(&mut device, 10).unwrap();
    assert_eq!(
        dc.get(State::Power).unwrap(),
        StateValue::Power(PowerState::On)
    );
    assert_eq!("", dc.transport_ref().written_text());
}

#[test]
fn sync_loop_ends_cleanly_at_stream_end() {
    let mut cache = Cache::new();
    let mut device = FakeStream::new();
    device.feed("PWON\r".as_bytes());
    assert_eq!(Ok(()), thread_func_impl(&mut device, &mut cache, 10));
    assert_eq!(
        Some(StateValue::Power(PowerState::On)),
        cache.get(State::Power)
    );
}

#[test]
fn thread_func_impl_gets_error_and_returns() {
    let mut mstream = FaultyStream::with_plan(Vec::new(), vec![Some(TransportError::Other)]);
    let mut cache = Cache::new();
    let thread_err = thread_func_impl(&mut mstream, &mut cache, 10);
    assert!(thread_err.is_err());
    assert_eq!(TransportError::Other, thread_err.unwrap_err());
    assert_eq!(None, cache.get(State::Power));
}

#[test]
fn thread_func_impl_gets_timeout_then_error_and_returns() {
    let mut mstream = FaultyStream::with_plan(
        Vec::new(),
        vec![Some(TransportError::TimedOut), Some(TransportError::Other)],
    );
    let mut cache = Cache::new();
    let thread_err = thread_func_impl(&mut mstream, &mut cache, 10);
    assert!(thread_err.is_err());
    assert_eq!(TransportError::Other, thread_err.unwrap_err());
}

#[test]
fn a_line_before_a_fatal_fault_is_still_applied() {
    let mut mstream = FaultyStream::with_plan(
        b"PWON\r".to_vec(),
        vec![None, None, Some(TransportError::Other)],
    );
    let mut cache = Cache::new();
    assert_eq!(
        Err(TransportError::Other),
        thread_func_impl(&mut mstream, &mut cache, 10)
    );
    assert_eq!(
        Some(StateValue::Power(PowerState::On)),
        cache.get(State::Power)
    );
}

#[test]
fn stop_shuts_the_connection_down() {
    let mut dc = DenonConnection::new(FakeStream::new());
    assert!(!dc.transport_ref().was_shut_down());
    dc.stop().unwrap();
    assert!(dc.transport_ref().was_shut_down());
    // The read side of the same connection ends, and the sync loop
    // observes that as its clean shutdown signal.
    let mut device = FakeStream::new();
    let mut cache = Cache::new();
    assert_eq!(Ok(()), thread_func_impl(&mut device, &mut cache, 10));
}

#[test]
fn unparsed_lines_leave_the_cache_alone() {
    let mut dc = DenonConnection::new(FakeStream::new());
    let mut device = FakeStream::new();
    device.feed("blub\rMV100\r".as_bytes());
    dc.run_sync(&mut device, 10).unwrap();
    assert_eq!(dc.get(State::MainVolume).unwrap(), StateValue::Integer(100));
    assert_eq!(dc.get(State::Power).unwrap(), StateValue::Unknown);
}

#[test]
fn print_status_test() {
    let mut encoder = FakeStream::new();
    write_state(&mut encoder, SetState::Power(PowerState::On)).unwrap();
    write_state(&mut encoder, SetState::SourceInput(SourceInputState::Cd)).unwrap();
    write_state(&mut encoder, SetState::MainVolume(230)).unwrap();
    write_state(&mut encoder, SetState::MaxVolume(666)).unwrap();

    let mut device = FakeStream::new();
    device.feed(encoder.written_text().as_bytes());
    let mut dc = DenonConnection::new(FakeStream::new());
    dc.run_sync(&mut device, 10).unwrap();

    let expected = "Current status of receiver:\n\tPower(ON)\n\tSourceInput(CD)\n\tMainVolume(230)\n\tMaxVolume(666)\n";
    assert_eq!(expected, print_status(&mut dc).unwrap());
}
