//! Picking sink-input numbers out of a sound server's listing: the
//! parsing half of switching audio outputs.  Running the control tool
//! and issuing the moves stay outside the library.
//!
//! The listing names each stream on a line `Sink Input #<number>`; the
//! number is whatever follows the last `#` of such a line.

use vstd::prelude::*;

verus! {

use crate::avahi::{split_char, split_on};
use crate::parse::has_prefix;
use crate::text::{all_digits, digits_val, parse_u32_digits, str_starts_with};
use vstd::string::StrSliceExecFns;

/// The sink-input number a listing line names: for a line starting with
/// the marker, the digits after its last `#`; a line whose number does
/// not parse names nothing.
pub open spec fn sink_line_id(line: Seq<char>) -> Option<u32> {
    if has_prefix(line, "Sink Input #"@) {
        let piece = split_on(line, '#').last();
        if piece.len() > 0 && all_digits(piece) && digits_val(piece) <= u32::MAX {
            Some(digits_val(piece) as u32)
        } else {
            None
        }
    } else {
        None
    }
}

/// All sink-input numbers in a listing, in order.
pub open spec fn sink_ids(lines: Seq<Seq<char>>) -> Seq<u32>
    decreases lines.len(),
{
    if lines.len() == 0 {
        Seq::empty()
    } else {
        (match sink_line_id(lines[0]) {
            Some(id) => seq![id],
            None => Seq::<u32>::empty(),
        }) + sink_ids(lines.skip(1))
    }
}

/// The sink-input numbers named by a `list sink-inputs` listing.
pub fn parse_sink_inputs(output: &str) -> (r: Vec<u32>)
    ensures
        r@ == sink_ids(split_on(output@, '\n')),
{
    let lines = split_char(output, '\n');
    let ghost dv = lines.deep_view();
    let mut r: Vec<u32> = Vec::new();
    let mut i: usize = 0;
    proof {
        assert(dv.skip(0) =~~= dv);
        assert(r@ + sink_ids(dv) =~= sink_ids(dv));
    }
    while i < lines.len()
        invariant
            0 <= i <= lines@.len(),
            dv == lines.deep_view(),
            dv == split_on(output@, '\n'),
            dv.len() == lines@.len(),
            sink_ids(dv) == r@ + sink_ids(dv.skip(i as int)),
        decreases lines@.len() - i,
    {
        proof {
            assert(dv.skip(i as int)[0] == dv[i as int]);
            assert(dv[i as int] == lines@[i as int]@);
            assert(dv.skip(i as int).skip(1) =~~= dv.skip(i as int + 1));
        }
        let ghost r_before = r@;
        let line = &lines[i];
        if str_starts_with(line.as_str(), "Sink Input #") {
            let fields = split_char(line.as_str(), '#');
            proof {
                assert(split_on(lines@[i as int]@, '#').len() >= 1);
                assert(fields.deep_view()[fields.deep_view().len() - 1] == fields@[fields@.len()
                    - 1]@);
            }
            let number = &fields[fields.len() - 1];
            match parse_u32_digits(number.as_str()) {
                Some(id) => {
                    r.push(id);
                    proof {
                        assert(r@ =~= r_before + seq![id]);
                        assert((r_before + seq![id]) + sink_ids(dv.skip(i as int + 1)) =~= r_before
                            + (seq![id] + sink_ids(dv.skip(i as int + 1))));
                    }
                },
                None => {
                    proof {
                        assert(Seq::<u32>::empty() + sink_ids(dv.skip(i as int + 1)) =~= sink_ids(
                            dv.skip(i as int + 1),
                        ));
                    }
                },
            }
        } else {
            proof {
                assert(Seq::<u32>::empty() + sink_ids(dv.skip(i as int + 1)) =~= sink_ids(
                    dv.skip(i as int + 1),
                ));
            }
        }
        i = i + 1;
    }
    proof {
        assert(dv.skip(i as int) =~~= Seq::<Seq<char>>::empty());
        assert(r@ + Seq::<u32>::empty() =~= r@);
    }
    r
}

} // verus!
