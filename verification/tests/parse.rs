use denon_control::parse::{parse, PowerState, SourceInputState};
use denon_control::state::SetState;

#[test]
fn parse_with_unknown_string() {
    assert_eq!(None, parse(""));
    assert_eq!(None, parse("blub"));
}

#[test]
fn max_volume() {
    let create = |i| Some(SetState::MaxVolume(i));

    assert_eq!(parse("MVMAX0"), create(0));
    assert_eq!(parse("MVMAX23"), create(230));
    assert_eq!(parse("MVMAX99"), create(990));
    assert_eq!(parse("MVMAX100"), create(100));
    assert_eq!(parse("MVMAX230"), create(230));
    assert_eq!(parse("MVMAX999"), create(999));
    assert_eq!(parse("MVMAX 999"), create(999));
}

#[test]
fn main_volume() {
    let create = |i| Some(SetState::MainVolume(i));

    assert_eq!(parse("MV 0"), create(0));
    assert_eq!(parse("MV 23"), create(230));
    assert_eq!(parse("MV 99"), create(990));
    assert_eq!(parse("MV 100"), create(100));
    assert_eq!(parse("MV 230"), create(230));
    assert_eq!(parse("MV 999"), create(999));
    assert_eq!(parse("MV999"), create(999));
}

#[test]
fn power() {
    let create = |ps| Some(SetState::Power(ps));

    assert_eq!(parse("PW"), create(PowerState::Standby));
    assert_eq!(parse("PWOFF"), create(PowerState::Standby));
    assert_eq!(parse("PWON"), create(PowerState::On));
}

#[test]
fn source_input() {
    let create = |si| Some(SetState::SourceInput(si));

    assert_eq!(parse("SI"), create(SourceInputState::Unknown));
    assert_eq!(parse("SIblub"), create(SourceInputState::Unknown));
    assert_eq!(parse("SITV"), create(SourceInputState::Tv));
}

#[test]
fn volume_without_value_is_dropped() {
    assert_eq!(None, parse("MVMAX"));
    assert_eq!(None, parse("MV"));
    assert_eq!(None, parse("MVabc"));
}

#[test]
fn volume_overflow_is_dropped() {
    assert_eq!(None, parse("MV99999999999"));
    assert_eq!(Some(SetState::MainVolume(4294967295)), parse("MV4294967295"));
}

#[test]
fn slash_inputs_round_trip() {
    assert_eq!(
        Some(SetState::SourceInput(SourceInputState::Netusb)),
        parse("SINET/USB")
    );
    assert_eq!(
        Some(SetState::SourceInput(SourceInputState::Usbipod)),
        parse("SIUSB/IPOD")
    );
}

#[test]
fn encode_decode_encode_volume_scaling() {
    // Decoding scales sub-100 volumes by ten, so re-encoding the decoded
    // command reproduces the original line only from 100 upward.
    let low = SetState::MainVolume(23);
    assert_eq!("MV23", low.value());
    let decoded = parse(low.value().as_str()).unwrap();
    assert_eq!(SetState::MainVolume(230), decoded);
    assert_ne!(low.value(), decoded.value());

    let high = SetState::MainVolume(230);
    let decoded_high = parse(high.value().as_str()).unwrap();
    assert_eq!(high, decoded_high);
    assert_eq!("MV230", decoded_high.value());

    assert_eq!(parse("MV23").unwrap().value(), parse("MV230").unwrap().value());
}

#[test]
fn every_set_command_decodes_to_itself() {
    for power in denon_control::state::PowerState::iterator() {
        let command = SetState::Power(power);
        assert_eq!(Some(command), parse(command.value().as_str()));
    }
    for input in denon_control::state::SourceInputState::iterator() {
        let command = SetState::SourceInput(input);
        assert_eq!(Some(command), parse(command.value().as_str()));
    }
    let max = SetState::MaxVolume(666);
    assert_eq!(Some(max), parse(max.value().as_str()));
}
