//! The four state facets of the receiver and their typed values, with the
//! exact wire spelling of each: `PW` power, `SI` source input, `MV` main
//! volume and `MVMAX` maximum volume, CR-terminated ASCII lines.

use vstd::prelude::*;

verus! {

use crate::text::{dec_str, decimal_string};
use vstd::string::StrSliceExecFns;
use vstd::string::StringExecFns;

#[derive(Debug, Clone, Copy, PartialEq, Eq, Structural)]
pub enum PowerState {
    On,
    Standby,
}

/// Wire spelling of a power value: `ON` or `STANDBY`.
pub open spec fn power_wire(p: PowerState) -> Seq<char> {
    match p {
        PowerState::On => seq!['O', 'N'],
        PowerState::Standby => seq!['S', 'T', 'A', 'N', 'D', 'B', 'Y'],
    }
}

impl PowerState {
    /// The wire spelling of this value.
    pub fn value(&self) -> (r: String)
        ensures
            r@ == power_wire(*self),
    {
        match *self {
            PowerState::On => {
                proof { reveal_strlit("ON"); }
                "ON".to_owned()
            },
            PowerState::Standby => {
                proof { reveal_strlit("STANDBY"); }
                "STANDBY".to_owned()
            },
        }
    }

    /// All power values, in a fixed order.
    pub fn iterator() -> (r: Vec<PowerState>)
        ensures
            r@ == seq![PowerState::On, PowerState::Standby],
    {
        let mut v: Vec<PowerState> = Vec::new();
        v.push(PowerState::On);
        v.push(PowerState::Standby);
        proof {
            assert(v@ =~= seq![PowerState::On, PowerState::Standby]);
        }
        v
    }
}

#[derive(Debug, Clone, Copy, PartialEq, Eq, Structural)]
pub enum SourceInputState {
    Cd,
    Tuner,
    Dvd,
    Bd,
    Tv,
    Satcbl,
    Game,
    Game2,
    Vaux,
    Dock,
    Ipod,
    Netusb,
    Rhapsody,
    Napster,
    Pandora,
    Lastfm,
    Flickr,
    Favorites,
    Iradio,
    Server,
    Usbipod,
    Usb,
    Ipd,
    Irp,
    Fvp,
    Unknown,
}

/// Wire spelling of a source input: the upper-case name, except for the
/// two slash-containing names `NET/USB` and `USB/IPOD`.
pub open spec fn source_input_wire(s: SourceInputState) -> Seq<char> {
    match s {
        SourceInputState::Cd => seq!['C', 'D'],
        SourceInputState::Tuner => seq!['T', 'U', 'N', 'E', 'R'],
        SourceInputState::Dvd => seq!['D', 'V', 'D'],
        SourceInputState::Bd => seq!['B', 'D'],
        SourceInputState::Tv => seq!['T', 'V'],
        SourceInputState::Satcbl => seq!['S', 'A', 'T', 'C', 'B', 'L'],
        SourceInputState::Game => seq!['G', 'A', 'M', 'E'],
        SourceInputState::Game2 => seq!['G', 'A', 'M', 'E', '2'],
        SourceInputState::Vaux => seq!['V', 'A', 'U', 'X'],
        SourceInputState::Dock => seq!['D', 'O', 'C', 'K'],
        SourceInputState::Ipod => seq!['I', 'P', 'O', 'D'],
        SourceInputState::Netusb => seq!['N', 'E', 'T', '/', 'U', 'S', 'B'],
        SourceInputState::Rhapsody => seq!['R', 'H', 'A', 'P', 'S', 'O', 'D', 'Y'],
        SourceInputState::Napster => seq!['N', 'A', 'P', 'S', 'T', 'E', 'R'],
        SourceInputState::Pandora => seq!['P', 'A', 'N', 'D', 'O', 'R', 'A'],
        SourceInputState::Lastfm => seq!['L', 'A', 'S', 'T', 'F', 'M'],
        SourceInputState::Flickr => seq!['F', 'L', 'I', 'C', 'K', 'R'],
        SourceInputState::Favorites => seq!['F', 'A', 'V', 'O', 'R', 'I', 'T', 'E', 'S'],
        SourceInputState::Iradio => seq!['I', 'R', 'A', 'D', 'I', 'O'],
        SourceInputState::Server => seq!['S', 'E', 'R', 'V', 'E', 'R'],
        SourceInputState::Usbipod => seq!['U', 'S', 'B', '/', 'I', 'P', 'O', 'D'],
        SourceInputState::Usb => seq!['U', 'S', 'B'],
        SourceInputState::Ipd => seq!['I', 'P', 'D'],
        SourceInputState::Irp => seq!['I', 'R', 'P'],
        SourceInputState::Fvp => seq!['F', 'V', 'P'],
        SourceInputState::Unknown => seq!['U', 'N', 'K', 'N', 'O', 'W', 'N'],
    }
}

/// The known source inputs, in the order the decoder tries them.
/// `Unknown` is not among them: it is never a valid wire name.
pub open spec fn source_input_list() -> Seq<SourceInputState> {
    seq![
        SourceInputState::Cd,
        SourceInputState::Tuner,
        SourceInputState::Dvd,
        SourceInputState::Bd,
        SourceInputState::Tv,
        SourceInputState::Satcbl,
        SourceInputState::Game,
        SourceInputState::Game2,
        SourceInputState::Vaux,
        SourceInputState::Dock,
        SourceInputState::Ipod,
        SourceInputState::Netusb,
        SourceInputState::Rhapsody,
        SourceInputState::Napster,
        SourceInputState::Pandora,
        SourceInputState::Lastfm,
        SourceInputState::Flickr,
        SourceInputState::Favorites,
        SourceInputState::Iradio,
        SourceInputState::Server,
        SourceInputState::Usbipod,
        SourceInputState::Usb,
        SourceInputState::Ipd,
        SourceInputState::Irp,
        SourceInputState::Fvp,
    ]
}

impl SourceInputState {
    /// The wire spelling of this input.
    pub fn value(&self) -> (r: String)
        ensures
            r@ == source_input_wire(*self),
    {
        match *self {
            SourceInputState::Cd => {
                proof { reveal_strlit("CD"); }
                "CD".to_owned()
            },
            SourceInputState::Tuner => {
                proof { reveal_strlit("TUNER"); }
                "TUNER".to_owned()
            },
            SourceInputState::Dvd => {
                proof { reveal_strlit("DVD"); }
                "DVD".to_owned()
            },
            SourceInputState::Bd => {
                proof { reveal_strlit("BD"); }
                "BD".to_owned()
            },
            SourceInputState::Tv => {
                proof { reveal_strlit("TV"); }
                "TV".to_owned()
            },
            SourceInputState::Satcbl => {
                proof { reveal_strlit("SATCBL"); }
                "SATCBL".to_owned()
            },
            SourceInputState::Game => {
                proof { reveal_strlit("GAME"); }
                "GAME".to_owned()
            },
            SourceInputState::Game2 => {
                proof { reveal_strlit("GAME2"); }
                "GAME2".to_owned()
            },
            SourceInputState::Vaux => {
                proof { reveal_strlit("VAUX"); }
                "VAUX".to_owned()
            },
            SourceInputState::Dock => {
                proof { reveal_strlit("DOCK"); }
                "DOCK".to_owned()
            },
            SourceInputState::Ipod => {
                proof { reveal_strlit("IPOD"); }
                "IPOD".to_owned()
            },
            SourceInputState::Netusb => {
                proof { reveal_strlit("NET/USB"); }
                "NET/USB".to_owned()
            },
            SourceInputState::Rhapsody => {
                proof { reveal_strlit("RHAPSODY"); }
                "RHAPSODY".to_owned()
            },
            SourceInputState::Napster => {
                proof { reveal_strlit("NAPSTER"); }
                "NAPSTER".to_owned()
            },
            SourceInputState::Pandora => {
                proof { reveal_strlit("PANDORA"); }
                "PANDORA".to_owned()
            },
            SourceInputState::Lastfm => {
                proof { reveal_strlit("LASTFM"); }
                "LASTFM".to_owned()
            },
            SourceInputState::Flickr => {
                proof { reveal_strlit("FLICKR"); }
                "FLICKR".to_owned()
            },
            SourceInputState::Favorites => {
                proof { reveal_strlit("FAVORITES"); }
                "FAVORITES".to_owned()
            },
            SourceInputState::Iradio => {
                proof { reveal_strlit("IRADIO"); }
                "IRADIO".to_owned()
            },
            SourceInputState::Server => {
                proof { reveal_strlit("SERVER"); }
                "SERVER".to_owned()
            },
            SourceInputState::Usbipod => {
                proof { reveal_strlit("USB/IPOD"); }
                "USB/IPOD".to_owned()
            },
            SourceInputState::Usb => {
                proof { reveal_strlit("USB"); }
                "USB".to_owned()
            },
            SourceInputState::Ipd => {
                proof { reveal_strlit("IPD"); }
                "IPD".to_owned()
            },
            SourceInputState::Irp => {
                proof { reveal_strlit("IRP"); }
                "IRP".to_owned()
            },
            SourceInputState::Fvp => {
                proof { reveal_strlit("FVP"); }
                "FVP".to_owned()
            },
            SourceInputState::Unknown => {
                proof { reveal_strlit("UNKNOWN"); }
                "UNKNOWN".to_owned()
            },
        }
    }

    /// All known source inputs, in the order the decoder tries them.
    pub fn iterator() -> (r: Vec<SourceInputState>)
        ensures
            r@ == source_input_list(),
    {
        let mut v: Vec<SourceInputState> = Vec::new();
        v.push(SourceInputState::Cd);
        v.push(SourceInputState::Tuner);
        v.push(SourceInputState::Dvd);
        v.push(SourceInputState::Bd);
        v.push(SourceInputState::Tv);
        v.push(SourceInputState::Satcbl);
        v.push(SourceInputState::Game);
        v.push(SourceInputState::Game2);
        v.push(SourceInputState::Vaux);
        v.push(SourceInputState::Dock);
        v.push(SourceInputState::Ipod);
        v.push(SourceInputState::Netusb);
        v.push(SourceInputState::Rhapsody);
        v.push(SourceInputState::Napster);
        v.push(SourceInputState::Pandora);
        v.push(SourceInputState::Lastfm);
        v.push(SourceInputState::Flickr);
        v.push(SourceInputState::Favorites);
        v.push(SourceInputState::Iradio);
        v.push(SourceInputState::Server);
        v.push(SourceInputState::Usbipod);
        v.push(SourceInputState::Usb);
        v.push(SourceInputState::Ipd);
        v.push(SourceInputState::Irp);
        v.push(SourceInputState::Fvp);
        proof {
            assert(v@ =~= source_input_list());
        }
        v
    }
}

/// A queryable facet of the receiver's state.
#[derive(Debug, Clone, Copy, PartialEq, Eq, Hash, Structural)]
pub enum State {
    Power,
    SourceInput,
    MaxVolume,
    MainVolume,
}

/// The wire prefix of a state key.  `MV` is a prefix of `MVMAX`, so the
/// decoder must try `MVMAX` first.
pub open spec fn state_prefix(s: State) -> Seq<char> {
    match s {
        State::Power => seq!['P', 'W'],
        State::SourceInput => seq!['S', 'I'],
        State::MaxVolume => seq!['M', 'V', 'M', 'A', 'X'],
        State::MainVolume => seq!['M', 'V'],
    }
}

impl State {
    /// The wire prefix of this key.
    pub fn value(&self) -> (r: String)
        ensures
            r@ == state_prefix(*self),
    {
        match *self {
            State::Power => {
                proof { reveal_strlit("PW"); }
                "PW".to_owned()
            },
            State::SourceInput => {
                proof { reveal_strlit("SI"); }
                "SI".to_owned()
            },
            State::MaxVolume => {
                proof { reveal_strlit("MVMAX"); }
                "MVMAX".to_owned()
            },
            State::MainVolume => {
                proof { reveal_strlit("MV"); }
                "MV".to_owned()
            },
        }
    }
}

/// The last value the receiver reported for some key, or `Unknown` when
/// nothing has been reported within the poll budget.  The decoder never
/// produces `Unknown`.
#[derive(Debug, Clone, Copy, PartialEq, Eq, Structural)]
pub enum StateValue {
    Power(PowerState),
    SourceInput(SourceInputState),
    Integer(u32),
    Unknown,
}

/// Wire spelling of a value (the part after the key prefix).
pub open spec fn state_value_wire(v: StateValue) -> Seq<char> {
    match v {
        StateValue::Power(p) => power_wire(p),
        StateValue::SourceInput(s) => source_input_wire(s),
        StateValue::Integer(i) => dec_str(i as int),
        StateValue::Unknown => Seq::<char>::empty(),
    }
}

impl StateValue {
    /// The wire spelling of this value; empty for `Unknown`.
    pub fn value(&self) -> (r: String)
        ensures
            r@ == state_value_wire(*self),
    {
        match *self {
            StateValue::Power(p) => p.value(),
            StateValue::SourceInput(s) => s.value(),
            StateValue::Integer(i) => decimal_string(i),
            StateValue::Unknown => String::new(),
        }
    }
}

/// A full command payload: a key together with the value to set it to.
#[derive(Debug, Clone, Copy, PartialEq, Eq, Structural)]
pub enum SetState {
    Power(PowerState),
    SourceInput(SourceInputState),
    MainVolume(u32),
    MaxVolume(u32),
}

/// The full wire line (without the terminating CR) of a set command, and
/// equally of a report sent by the receiver.
pub open spec fn set_state_wire(s: SetState) -> Seq<char> {
    state_prefix(set_state_key(s)) + state_value_wire(set_state_value(s))
}

/// The key a set command addresses.
pub open spec fn set_state_key(s: SetState) -> State {
    match s {
        SetState::Power(_) => State::Power,
        SetState::SourceInput(_) => State::SourceInput,
        SetState::MainVolume(_) => State::MainVolume,
        SetState::MaxVolume(_) => State::MaxVolume,
    }
}

/// The value a set command carries.
pub open spec fn set_state_value(s: SetState) -> StateValue {
    match s {
        SetState::Power(p) => StateValue::Power(p),
        SetState::SourceInput(si) => StateValue::SourceInput(si),
        SetState::MainVolume(i) => StateValue::Integer(i),
        SetState::MaxVolume(i) => StateValue::Integer(i),
    }
}

impl SetState {
    /// Split into the key and the value, as the cache stores them.
    pub fn convert(&self) -> (r: (State, StateValue))
        ensures
            r.0 == set_state_key(*self),
            r.1 == set_state_value(*self),
    {
        match *self {
            SetState::Power(p) => (State::Power, StateValue::Power(p)),
            SetState::SourceInput(si) => (State::SourceInput, StateValue::SourceInput(si)),
            SetState::MainVolume(i) => (State::MainVolume, StateValue::Integer(i)),
            SetState::MaxVolume(i) => (State::MaxVolume, StateValue::Integer(i)),
        }
    }

    /// The full wire line of this command, without the terminating CR.
    pub fn value(&self) -> (r: String)
        ensures
            r@ == set_state_wire(*self),
    {
        let (key, val) = self.convert();
        let payload = val.value();
        key.value().concat(payload.as_str())
    }
}

} // verus!
