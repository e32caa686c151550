//! A small string helper: drop a prefix from a line when it is there.

use vstd::prelude::*;

verus! {

use crate::text::str_starts_with;
use vstd::string::StrSliceExecFns;

/// `line` without `prefix` when it starts with it, `line` itself
/// otherwise.
pub fn skip_prefix<'a>(line: &'a str, prefix: &str) -> (r: &'a str)
    ensures
        r@ == (if prefix@.is_prefix_of(line@) {
            line@.skip(prefix@.len() as int)
        } else {
            line@
        }),
{
    if str_starts_with(line, prefix) {
        let pref_len: usize = prefix.unicode_len();
        let len: usize = line.unicode_len();
        let rest = line.substring_char(pref_len, len);
        proof {
            assert(prefix@.is_prefix_of(line@)) by {
                assert(prefix@ =~= line@.subrange(0, prefix@.len() as int));
            }
            assert(rest@ =~= line@.skip(prefix@.len() as int));
        }
        rest
    } else {
        proof {
            if prefix@.is_prefix_of(line@) {
                assert(line@.subrange(0, prefix@.len() as int) =~= prefix@);
            }
        }
        line
    }
}

} // verus!
