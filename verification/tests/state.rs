use denon_control::state::{PowerState, SetState, SourceInputState, State, StateValue};

#[test]
fn power_state_iterator() {
    let piter = PowerState::iterator();
    assert!(matches!(piter.get(0), Some(PowerState::On)));
    assert!(matches!(piter.get(1), Some(PowerState::Standby)));
    assert!(matches!(piter.get(2), None));
}

#[test]
fn power_state_display() {
    assert_eq!("ON", PowerState::On.value());
    assert_eq!("STANDBY", PowerState::Standby.value());
}

#[test]
fn source_input_state_display() {
    assert_eq!("DVD", SourceInputState::Dvd.value());
    assert_eq!("FLICKR", SourceInputState::Flickr.value());
}

#[test]
fn source_input_iterator_has_all_wire_names() {
    let inputs = SourceInputState::iterator();
    assert_eq!(25, inputs.len());
    assert!(matches!(inputs.get(0), Some(SourceInputState::Cd)));
    assert!(matches!(inputs.get(24), Some(SourceInputState::Fvp)));
    assert!(!inputs.contains(&SourceInputState::Unknown));
    assert_eq!("NET/USB", SourceInputState::Netusb.value());
    assert_eq!("USB/IPOD", SourceInputState::Usbipod.value());
}

#[test]
fn state_display() {
    assert_eq!("MV", State::MainVolume.value());
    assert_eq!("MVMAX", State::MaxVolume.value());
    assert_eq!("PW", State::Power.value());
    assert_eq!("SI", State::SourceInput.value());
}

#[test]
fn state_statevalue_display() {
    let ts = |s: State, sv: StateValue| format!("{}{}", s.value(), sv.value());
    assert_eq!("MV230", ts(State::MainVolume, StateValue::Integer(230)));
    assert_eq!("MVMAX666", ts(State::MaxVolume, StateValue::Integer(666)));
    assert_eq!("PWON", ts(State::Power, StateValue::Power(PowerState::On)));
    assert_eq!(
        "SIDVD",
        ts(
            State::SourceInput,
            StateValue::SourceInput(SourceInputState::Dvd)
        )
    );
}

#[test]
fn set_state_converts_to_key_and_value() {
    let (key, value) = SetState::MainVolume(230).convert();
    assert_eq!(State::MainVolume, key);
    assert_eq!(StateValue::Integer(230), value);
    let (key, value) = SetState::Power(PowerState::On).convert();
    assert_eq!(State::Power, key);
    assert_eq!(StateValue::Power(PowerState::On), value);
}

#[test]
fn unknown_value_renders_empty() {
    assert_eq!("", StateValue::Unknown.value());
}
