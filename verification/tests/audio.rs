use denon_control::pulseaudio::parse_sink_inputs;

#[test]
fn sink_inputs_are_read_from_the_listing() {
    let listing = "Sink Input #42\n\
                   \tdriver: protocol-native.c\n\
                   Sink Input #127\n\
                   \tdriver: protocol-native.c\n";
    assert_eq!(vec![42, 127], parse_sink_inputs(listing));
}

#[test]
fn listing_without_sink_inputs_names_nothing() {
    assert_eq!(Vec::<u32>::new(), parse_sink_inputs(""));
    assert_eq!(Vec::<u32>::new(), parse_sink_inputs("Sink Input #\n"));
    assert_eq!(Vec::<u32>::new(), parse_sink_inputs("Source Output #3\n"));
}
