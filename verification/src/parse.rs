//! The decoder half of the protocol codec: turn one received line into
//! the state report it carries, if any.
//!
//! A line matches the first key whose prefix it starts with, longest
//! prefix first (`MVMAX` before `MV`).  The rest of the line is the
//! value: `ON`/anything for power, an exact input name for source input,
//! and a decimal number for the volumes, where values below 100 are
//! tenths and are scaled by ten.  A line that matches no key, or a
//! volume that is not a number, decodes to nothing.

use vstd::prelude::*;

verus! {

pub use crate::state::PowerState;
pub use crate::state::SourceInputState;
pub use crate::state::State;
use crate::state::{
    power_wire, set_state_wire, set_state_key, set_state_value, source_input_list,
    source_input_wire, state_prefix, SetState, StateValue,
};
use crate::text::{
    all_digits, dec_str, digits_val, is_digit_char, is_ws_char, lemma_dec_str_digits,
    lemma_dec_str_val, lemma_trim_of_trimmed, parse_u32_digits, str_eq, str_starts_with,
    trim_spec, trim_str,
};
use vstd::string::StrSliceExecFns;
use vstd::string::StringExecFns;

/// Whether `s` starts with `p`.
pub open spec fn has_prefix(s: Seq<char>, p: Seq<char>) -> bool {
    p.len() <= s.len() && s.subrange(0, p.len() as int) == p
}

/// The volume scaling quirk: wire values below 100 are tenths and stand
/// for ten times their numeric value.
pub open spec fn scale_volume(v: u32) -> u32 {
    if v < 100 {
        (v * 10) as u32
    } else {
        v
    }
}

/// What a volume token decodes to: the scaled value of a non-empty digit
/// string that fits a `u32`, nothing otherwise.
pub open spec fn parse_int_spec(s: Seq<char>) -> Option<u32> {
    if s.len() > 0 && all_digits(s) && digits_val(s) <= u32::MAX {
        Some(scale_volume(digits_val(s) as u32))
    } else {
        None
    }
}

/// What a power token decodes to: `ON` means on, everything else standby.
pub open spec fn parse_power_spec(s: Seq<char>) -> PowerState {
    if s == power_wire(PowerState::On) {
        PowerState::On
    } else {
        PowerState::Standby
    }
}

pub open spec fn si_lookup(s: Seq<char>, list: Seq<SourceInputState>, i: int) -> SourceInputState
    decreases list.len() - i,
{
    if i < 0 || i >= list.len() {
        SourceInputState::Unknown
    } else if source_input_wire(list[i]) == s {
        list[i]
    } else {
        si_lookup(s, list, i + 1)
    }
}

/// What a source-input token decodes to: the first known input whose
/// wire name matches exactly, or `Unknown`.
pub open spec fn parse_source_input_spec(s: Seq<char>) -> SourceInputState {
    si_lookup(s, source_input_list(), 0)
}

/// The value part of a line: what follows the key prefix, trimmed.
pub open spec fn value_part(t: Seq<char>, key: State) -> Seq<char> {
    trim_spec(t.skip(state_prefix(key).len() as int))
}

/// What one received line decodes to.  The line is trimmed, matched
/// against the key prefixes longest first, and its value part is decoded
/// per key; an unknown prefix or a bad volume token decodes to nothing.
pub open spec fn parse_spec(s: Seq<char>) -> Option<SetState> {
    let t = trim_spec(s);
    if has_prefix(t, state_prefix(State::MaxVolume)) {
        match parse_int_spec(value_part(t, State::MaxVolume)) {
            Some(v) => Some(SetState::MaxVolume(v)),
            None => None,
        }
    } else if has_prefix(t, state_prefix(State::MainVolume)) {
        match parse_int_spec(value_part(t, State::MainVolume)) {
            Some(v) => Some(SetState::MainVolume(v)),
            None => None,
        }
    } else if has_prefix(t, state_prefix(State::Power)) {
        Some(SetState::Power(parse_power_spec(value_part(t, State::Power))))
    } else if has_prefix(t, state_prefix(State::SourceInput)) {
        Some(SetState::SourceInput(parse_source_input_spec(value_part(t, State::SourceInput))))
    } else {
        None
    }
}

/// The value part of `trimmed` for key `op`: skip the prefix, trim again.
pub fn get_value<'a>(trimmed: &'a str, op: &State) -> (r: &'a str)
    requires
        state_prefix(*op).len() <= trimmed@.len(),
    ensures
        r@ == value_part(trimmed@, *op),
{
    let prefix = op.value();
    let to_skip: usize = prefix.as_str().unicode_len();
    let len: usize = trimmed.unicode_len();
    let rest = trimmed.substring_char(to_skip, len);
    proof {
        assert(rest@ =~= trimmed@.skip(state_prefix(*op).len() as int));
    }
    trim_str(rest)
}

/// Decode a volume token, applying the tenths scaling.
pub fn parse_int(to_parse: &str) -> (r: Option<u32>)
    ensures
        r == parse_int_spec(to_parse@),
{
    match parse_u32_digits(to_parse) {
        Some(v) => {
            if v < 100 {
                Some(v * 10)
            } else {
                Some(v)
            }
        },
        None => None,
    }
}

/// Decode a power token.
pub fn parse_power(value: &str) -> (r: PowerState)
    ensures
        r == parse_power_spec(value@),
{
    let on = PowerState::On.value();
    if str_eq(value, on.as_str()) {
        PowerState::On
    } else {
        PowerState::Standby
    }
}

/// Decode a source-input token.
pub fn parse_source_input(value: &str) -> (r: SourceInputState)
    ensures
        r == parse_source_input_spec(value@),
{
    let list = SourceInputState::iterator();
    let mut i: usize = 0;
    while i < list.len()
        invariant
            0 <= i <= list.len(),
            list@ == source_input_list(),
            parse_source_input_spec(value@) == si_lookup(value@, source_input_list(), i as int),
        decreases list.len() - i,
    {
        let candidate = list[i];
        let wire = candidate.value();
        if str_eq(value, wire.as_str()) {
            return candidate;
        }
        i = i + 1;
    }
    SourceInputState::Unknown
}

/// Decode one received line into the report it carries, if any.
pub fn parse(input: &str) -> (r: Option<SetState>)
    ensures
        r == parse_spec(input@),
{
    let trimmed = trim_str(input);
    let max_volume = State::MaxVolume;
    let main_volume = State::MainVolume;
    let power = State::Power;
    let source_input = State::SourceInput;
    if str_starts_with(trimmed, max_volume.value().as_str()) {
        match parse_int(get_value(trimmed, &max_volume)) {
            Some(v) => Some(SetState::MaxVolume(v)),
            None => None,
        }
    } else if str_starts_with(trimmed, main_volume.value().as_str()) {
        match parse_int(get_value(trimmed, &main_volume)) {
            Some(v) => Some(SetState::MainVolume(v)),
            None => None,
        }
    } else if str_starts_with(trimmed, power.value().as_str()) {
        Some(SetState::Power(parse_power(get_value(trimmed, &power))))
    } else if str_starts_with(trimmed, source_input.value().as_str()) {
        Some(SetState::SourceInput(parse_source_input(get_value(trimmed, &source_input))))
    } else {
        None
    }
}

/// What a set command reads back as: the command itself, except that
/// the volume scaling quirk turns a sub-100 volume into ten times its
/// value.
pub open spec fn normalize_set(s: SetState) -> SetState {
    match s {
        SetState::Power(p) => SetState::Power(p),
        SetState::SourceInput(si) => SetState::SourceInput(si),
        SetState::MainVolume(v) => SetState::MainVolume(scale_volume(v)),
        SetState::MaxVolume(v) => SetState::MaxVolume(scale_volume(v)),
    }
}

/// Every source-input wire name is non-empty and carries no whitespace
/// at either end.
proof fn lemma_si_wire_shape(si: SourceInputState)
    ensures
        source_input_wire(si).len() > 0,
        !is_ws_char(source_input_wire(si)[0]),
        !is_ws_char(source_input_wire(si).last()),
{
}

/// Looking a wire name up in the input table finds exactly the input it
/// spells; `UNKNOWN` itself is the name of no known input.
#[verifier::rlimit(50)]
proof fn lemma_si_wire_parse(si: SourceInputState)
    ensures
        parse_source_input_spec(source_input_wire(si)) == si,
{
    reveal_with_fuel(si_lookup, 27);
    assert(source_input_wire(SourceInputState::Cd).len() == 2);
    assert(source_input_wire(SourceInputState::Tuner).len() == 5);
    assert(source_input_wire(SourceInputState::Dvd).len() == 3);
    assert(source_input_wire(SourceInputState::Bd).len() == 2);
    assert(source_input_wire(SourceInputState::Tv).len() == 2);
    assert(source_input_wire(SourceInputState::Satcbl).len() == 6);
    assert(source_input_wire(SourceInputState::Game).len() == 4);
    assert(source_input_wire(SourceInputState::Game2).len() == 5);
    assert(source_input_wire(SourceInputState::Vaux).len() == 4);
    assert(source_input_wire(SourceInputState::Dock).len() == 4);
    assert(source_input_wire(SourceInputState::Ipod).len() == 4);
    assert(source_input_wire(SourceInputState::Netusb).len() == 7);
    assert(source_input_wire(SourceInputState::Rhapsody).len() == 8);
    assert(source_input_wire(SourceInputState::Napster).len() == 7);
    assert(source_input_wire(SourceInputState::Pandora).len() == 7);
    assert(source_input_wire(SourceInputState::Lastfm).len() == 6);
    assert(source_input_wire(SourceInputState::Flickr).len() == 6);
    assert(source_input_wire(SourceInputState::Favorites).len() == 9);
    assert(source_input_wire(SourceInputState::Iradio).len() == 6);
    assert(source_input_wire(SourceInputState::Server).len() == 6);
    assert(source_input_wire(SourceInputState::Usbipod).len() == 8);
    assert(source_input_wire(SourceInputState::Usb).len() == 3);
    assert(source_input_wire(SourceInputState::Ipd).len() == 3);
    assert(source_input_wire(SourceInputState::Irp).len() == 3);
    assert(source_input_wire(SourceInputState::Fvp).len() == 3);
    assert(source_input_wire(SourceInputState::Unknown).len() == 7);
    match si {
        SourceInputState::Cd => {
            assert(parse_source_input_spec(source_input_wire(si)) == si);
        },
        SourceInputState::Tuner => {
            assert(parse_source_input_spec(source_input_wire(si)) == si);
        },
        SourceInputState::Dvd => {
            assert(parse_source_input_spec(source_input_wire(si)) == si);
        },
        SourceInputState::Bd => {
            assert(parse_source_input_spec(source_input_wire(si)) == si);
        },
        SourceInputState::Tv => {
            assert(parse_source_input_spec(source_input_wire(si)) == si);
        },
        SourceInputState::Satcbl => {
            assert(parse_source_input_spec(source_input_wire(si)) == si);
        },
        SourceInputState::Game => {
            assert(parse_source_input_spec(source_input_wire(si)) == si);
        },
        SourceInputState::Game2 => {
            assert(parse_source_input_spec(source_input_wire(si)) == si);
        },
        SourceInputState::Vaux => {
            assert(parse_source_input_spec(source_input_wire(si)) == si);
        },
        SourceInputState::Dock => {
            assert(parse_source_input_spec(source_input_wire(si)) == si);
        },
        SourceInputState::Ipod => {
            assert(parse_source_input_spec(source_input_wire(si)) == si);
        },
        SourceInputState::Netusb => {
            assert(parse_source_input_spec(source_input_wire(si)) == si);
        },
        SourceInputState::Rhapsody => {
            assert(parse_source_input_spec(source_input_wire(si)) == si);
        },
        SourceInputState::Napster => {
            assert(parse_source_input_spec(source_input_wire(si)) == si);
        },
        SourceInputState::Pandora => {
            assert(parse_source_input_spec(source_input_wire(si)) == si);
        },
        SourceInputState::Lastfm => {
            assert(parse_source_input_spec(source_input_wire(si)) == si);
        },
        SourceInputState::Flickr => {
            assert(parse_source_input_spec(source_input_wire(si)) == si);
        },
        SourceInputState::Favorites => {
            assert(parse_source_input_spec(source_input_wire(si)) == si);
        },
        SourceInputState::Iradio => {
            assert(parse_source_input_spec(source_input_wire(si)) == si);
        },
        SourceInputState::Server => {
            assert(parse_source_input_spec(source_input_wire(si)) == si);
        },
        SourceInputState::Usbipod => {
            assert(parse_source_input_spec(source_input_wire(si)) == si);
        },
        SourceInputState::Usb => {
            assert(parse_source_input_spec(source_input_wire(si)) == si);
        },
        SourceInputState::Ipd => {
            assert(parse_source_input_spec(source_input_wire(si)) == si);
        },
        SourceInputState::Irp => {
            assert(parse_source_input_spec(source_input_wire(si)) == si);
        },
        SourceInputState::Fvp => {
            assert(parse_source_input_spec(source_input_wire(si)) == si);
        },
        SourceInputState::Unknown => {
            assert(parse_source_input_spec(source_input_wire(si)) == si);
        },
    }
}

/// Leading whitespace before a token is discarded by the front trim.
proof fn lemma_trim_front_ws(pad: Seq<char>, rest: Seq<char>)
    requires
        forall|i: int| 0 <= i < pad.len() ==> is_ws_char(#[trigger] pad[i]),
        rest.len() == 0 || !is_ws_char(rest[0]),
    ensures
        crate::text::trim_front_spec(pad + rest) == rest,
    decreases pad.len(),
{
    if pad.len() == 0 {
        assert(pad + rest =~= rest);
        if rest.len() > 0 {
            assert(!is_ws_char((pad + rest)[0]));
        }
    } else {
        assert((pad + rest)[0] == pad[0]);
        assert((pad + rest).skip(1) =~= pad.skip(1) + rest);
        assert(forall|i: int| 0 <= i < pad.skip(1).len() ==> #[trigger] pad.skip(1)[i] == pad[i
            + 1]);
        lemma_trim_front_ws(pad.skip(1), rest);
    }
}

/// A volume line decodes the same however its number is spelled:
/// `MV`/`MVMAX`, any run of whitespace, then any non-empty digit string
/// `d` (leading zeros included) whose value fits a `u32` decodes to
/// that value, scaled.  The canonical rendering `dec_str(v)` is one
/// such spelling, which gives the wire-level round trip.
pub proof fn lemma_padded_volume_round_trip(pad: Seq<char>, d: Seq<char>)
    requires
        forall|i: int| 0 <= i < pad.len() ==> is_ws_char(#[trigger] pad[i]),
        d.len() > 0,
        all_digits(d),
        digits_val(d) <= u32::MAX,
    ensures
        parse_spec(state_prefix(State::MainVolume) + pad + d) == Some(
            SetState::MainVolume(scale_volume(digits_val(d) as u32)),
        ),
        parse_spec(state_prefix(State::MaxVolume) + pad + d) == Some(
            SetState::MaxVolume(scale_volume(digits_val(d) as u32)),
        ),
{
    assert(is_digit_char(d[0]));
    assert(is_digit_char(d[d.len() - 1]));
    lemma_trim_front_ws(pad, d);
    assert(crate::text::trim_back_spec(d) == d);
    let wmv = state_prefix(State::MainVolume) + pad + d;
    let wmax = state_prefix(State::MaxVolume) + pad + d;
    assert(wmv[0] == 'M');
    assert(wmax[0] == 'M');
    assert(wmv.last() == d[d.len() - 1] && wmax.last() == d[d.len() - 1]) by {
        assert(wmv[wmv.len() - 1] == d[d.len() - 1]);
        assert(wmax[wmax.len() - 1] == d[d.len() - 1]);
    }
    lemma_trim_of_trimmed(wmv);
    lemma_trim_of_trimmed(wmax);
    assert(has_prefix(wmv, state_prefix(State::MainVolume))) by {
        assert(wmv.subrange(0, 2) =~= state_prefix(State::MainVolume));
    }
    assert(has_prefix(wmax, state_prefix(State::MaxVolume))) by {
        assert(wmax.subrange(0, 5) =~= state_prefix(State::MaxVolume));
    }
    assert(!has_prefix(wmv, state_prefix(State::MaxVolume))) by {
        if has_prefix(wmv, state_prefix(State::MaxVolume)) {
            assert(wmv.subrange(0, 5)[2] == 'M');
            assert(wmv[2] == (pad + d)[0]);
            if pad.len() > 0 {
                assert(is_ws_char(wmv[2]));
            } else {
                assert(is_digit_char(wmv[2]));
            }
        }
    }
    assert(wmv.skip(2) =~= pad + d);
    assert(wmax.skip(5) =~= pad + d);
    assert(value_part(wmv, State::MainVolume) == d) by {
        assert(crate::text::trim_spec(pad + d) == d);
    }
    assert(value_part(wmax, State::MaxVolume) == d) by {
        assert(crate::text::trim_spec(pad + d) == d);
    }
    assert(parse_int_spec(d) == Some(scale_volume(digits_val(d) as u32)));
}

/// Round trip through the wire: decoding the encoded line of any set
/// command yields the command back, up to the volume scaling quirk.
/// For volumes below 100 the decoder returns ten times the wire value,
/// so re-encoding the decoded command reproduces the original line
/// exactly when the volume is at least 100, and never otherwise.
pub proof fn lemma_wire_round_trip(s: SetState)
    ensures
        parse_spec(set_state_wire(s)) == Some(normalize_set(s)),
{
    let w = set_state_wire(s);
    match s {
        SetState::MaxVolume(v) => {
            let d = dec_str(v as int);
            lemma_dec_str_digits(v as int);
            lemma_dec_str_val(v as int);
            assert(w == state_prefix(State::MaxVolume) + d);
            assert(w[0] == 'M');
            assert(is_digit_char(d[d.len() - 1]));
            assert(w.last() == d[d.len() - 1]);
            lemma_trim_of_trimmed(w);
            assert(has_prefix(w, state_prefix(State::MaxVolume))) by {
                assert(w.subrange(0, 5) =~= state_prefix(State::MaxVolume));
            }
            assert(w.skip(5) =~= d);
            assert(is_digit_char(d[0]));
            lemma_trim_of_trimmed(d);
            assert(value_part(w, State::MaxVolume) == d);
            assert(parse_int_spec(d) == Some(scale_volume(v)));
        },
        SetState::MainVolume(v) => {
            let d = dec_str(v as int);
            lemma_dec_str_digits(v as int);
            lemma_dec_str_val(v as int);
            assert(w == state_prefix(State::MainVolume) + d);
            assert(w[0] == 'M');
            assert(is_digit_char(d[d.len() - 1]));
            assert(w.last() == d[d.len() - 1]);
            lemma_trim_of_trimmed(w);
            assert(is_digit_char(d[0]));
            assert(!has_prefix(w, state_prefix(State::MaxVolume))) by {
                if has_prefix(w, state_prefix(State::MaxVolume)) {
                    assert(w.subrange(0, 5)[2] == 'M');
                    assert(w[2] == d[0]);
                }
            }
            assert(has_prefix(w, state_prefix(State::MainVolume))) by {
                assert(w.subrange(0, 2) =~= state_prefix(State::MainVolume));
            }
            assert(w.skip(2) =~= d);
            lemma_trim_of_trimmed(d);
            assert(value_part(w, State::MainVolume) == d);
            assert(parse_int_spec(d) == Some(scale_volume(v)));
        },
        SetState::Power(p) => {
            let pw = power_wire(p);
            assert(w == state_prefix(State::Power) + pw);
            assert(w[0] == 'P');
            assert(pw.len() > 0 && !is_ws_char(pw[0]) && !is_ws_char(pw.last())) by {
                match p {
                    PowerState::On => {},
                    PowerState::Standby => {},
                }
            }
            assert(w.last() == pw[pw.len() - 1]);
            lemma_trim_of_trimmed(w);
            assert(!has_prefix(w, state_prefix(State::MaxVolume))) by {
                if has_prefix(w, state_prefix(State::MaxVolume)) {
                    assert(w.subrange(0, 5)[0] == 'M');
                }
            }
            assert(!has_prefix(w, state_prefix(State::MainVolume))) by {
                if has_prefix(w, state_prefix(State::MainVolume)) {
                    assert(w.subrange(0, 2)[0] == 'M');
                }
            }
            assert(has_prefix(w, state_prefix(State::Power))) by {
                assert(w.subrange(0, 2) =~= state_prefix(State::Power));
            }
            assert(w.skip(2) =~= pw);
            lemma_trim_of_trimmed(pw);
            assert(value_part(w, State::Power) == pw);
            assert(parse_power_spec(pw) == p) by {
                match p {
                    PowerState::On => {},
                    PowerState::Standby => {
                        assert(power_wire(PowerState::Standby).len() != power_wire(
                            PowerState::On,
                        ).len());
                    },
                }
            }
        },
        SetState::SourceInput(si) => {
            let sw = source_input_wire(si);
            lemma_si_wire_shape(si);
            assert(w == state_prefix(State::SourceInput) + sw);
            assert(w[0] == 'S');
            assert(w.last() == sw[sw.len() - 1]);
            lemma_trim_of_trimmed(w);
            assert(!has_prefix(w, state_prefix(State::MaxVolume))) by {
                if has_prefix(w, state_prefix(State::MaxVolume)) {
                    assert(w.subrange(0, 5)[0] == 'M');
                }
            }
            assert(!has_prefix(w, state_prefix(State::MainVolume))) by {
                if has_prefix(w, state_prefix(State::MainVolume)) {
                    assert(w.subrange(0, 2)[0] == 'M');
                }
            }
            assert(!has_prefix(w, state_prefix(State::Power))) by {
                if has_prefix(w, state_prefix(State::Power)) {
                    assert(w.subrange(0, 2)[0] == 'P');
                }
            }
            assert(has_prefix(w, state_prefix(State::SourceInput))) by {
                assert(w.subrange(0, 2) =~= state_prefix(State::SourceInput));
            }
            assert(w.skip(2) =~= sw);
            lemma_trim_of_trimmed(sw);
            assert(value_part(w, State::SourceInput) == sw);
            lemma_si_wire_parse(si);
        },
    }
}

} // verus!
