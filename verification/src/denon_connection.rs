//! The protocol client proper: the line framer, the shared state cache,
//! the background sync loop, and the connection facade.
//!
//! The framer ([`read`]) cuts the raw byte stream into CR-terminated
//! lines without ever consuming bytes it cannot yet frame.  The sync
//! loop ([`thread_func_impl`]) keeps framing one line at a time,
//! decoding it and upserting the report into the [`Cache`].  The facade
//! ([`DenonConnection`]) owns the write side: it encodes and writes set
//! and query commands and answers `get` from the cache.

use vstd::prelude::*;

verus! {

use crate::parse::{parse, parse_spec};
pub use crate::parse::State;
use crate::state::{set_state_key, set_state_value, SetState, StateValue};
use crate::stream::{is_transient_error, ConnectionStream, ReadStream, TransportError};
use crate::text::bytes_to_string;
use vstd::string::StringExecFns;
use vstd::utf8::{
    decode_utf8, is_leading_byte_width_1, length_of_first_codepoint, pop_first_scalar,
    valid_first_scalar, valid_utf8,
};

/// The byte that terminates every protocol line.
pub const LINE_TERMINATOR: u8 = 13;

/// How many bytes one peek looks at.  A line longer than this cannot be
/// framed.
pub const READ_BUFFER_SIZE: usize = 100;

/// Index of the first CR in `c`, or `-1` if there is none.
pub open spec fn find_cr(c: Seq<u8>) -> int
    decreases c.len(),
{
    if c.len() == 0 {
        -1
    } else if c[0] == LINE_TERMINATOR {
        0
    } else {
        let r = find_cr(c.skip(1));
        if r < 0 {
            -1
        } else {
            r + 1
        }
    }
}

/// `find_cr` finds the first CR: it is in range, it is a CR, and nothing
/// before it is one; `-1` means there is no CR at all.
pub proof fn lemma_find_cr(c: Seq<u8>)
    ensures
        find_cr(c) == -1 || 0 <= find_cr(c) < c.len(),
        find_cr(c) >= 0 ==> c[find_cr(c)] == LINE_TERMINATOR,
        forall|j: int|
            0 <= j < c.len() && (find_cr(c) == -1 || j < find_cr(c)) ==> c[j] != LINE_TERMINATOR,
    decreases c.len(),
{
    if c.len() > 0 && c[0] != LINE_TERMINATOR {
        lemma_find_cr(c.skip(1));
        assert forall|j: int|
            0 <= j < c.len() && (find_cr(c) == -1 || j < find_cr(c)) implies c[j]
            != LINE_TERMINATOR by {
            if j >= 1 {
                assert(c[j] == c.skip(1)[j - 1]);
            }
        };
    }
}

/// Where the first CR is known by its properties, `find_cr` returns it.
pub proof fn lemma_find_cr_at(c: Seq<u8>, i: int)
    requires
        0 <= i < c.len(),
        c[i] == LINE_TERMINATOR,
        forall|j: int| 0 <= j < i ==> c[j] != LINE_TERMINATOR,
    ensures
        find_cr(c) == i,
    decreases i,
{
    if i > 0 {
        assert(forall|j: int| 0 <= j < i - 1 ==> #[trigger] c.skip(1)[j] == c[j + 1]);
        assert(c.skip(1)[i - 1] == c[i]);
        lemma_find_cr_at(c.skip(1), i - 1);
    }
}

/// The lines of `c`: split at each CR, which belongs to no line.  A
/// trailing fragment without a CR forms a line of its own, but never
/// occurs in what [`read`] has consumed.
pub open spec fn framed(c: Seq<u8>) -> Seq<Seq<u8>>
    decreases c.len(),
    via framed_decreases
{
    if c.len() == 0 {
        Seq::empty()
    } else if find_cr(c) < 0 {
        seq![c]
    } else {
        seq![c.take(find_cr(c))] + framed(c.skip(find_cr(c) + 1))
    }
}

#[via_fn]
proof fn framed_decreases(c: Seq<u8>) {
    lemma_find_cr(c);
}

/// Whether `c` consists of whole lines: it is empty or ends with a CR.
pub open spec fn line_terminated(c: Seq<u8>) -> bool {
    c.len() == 0 || c.last() == LINE_TERMINATOR
}

/// The lines of a line list that are valid text, decoded; the rest are
/// dropped.
pub open spec fn text_lines(ls: Seq<Seq<u8>>) -> Seq<Seq<char>>
    decreases ls.len(),
{
    if ls.len() == 0 {
        Seq::empty()
    } else if valid_utf8(ls[0]) {
        seq![decode_utf8(ls[0])] + text_lines(ls.skip(1))
    } else {
        text_lines(ls.skip(1))
    }
}

/// What a consumed byte region yields: its lines, decoded, with lines
/// that are not valid text dropped.
pub open spec fn decoded_lines(c: Seq<u8>) -> Seq<Seq<char>> {
    text_lines(framed(c))
}

/// Whether a whole line sits within one peek window of the unconsumed
/// bytes: a CR among the first `READ_BUFFER_SIZE` of them.
pub open spec fn line_available(bytes: Seq<u8>, pos: int) -> bool {
    exists|i: int|
        pos <= i < bytes.len() && i - pos < READ_BUFFER_SIZE && bytes[i] == LINE_TERMINATOR
}

/// A single line with its terminator frames to just that line.
proof fn lemma_framed_single(line: Seq<u8>)
    requires
        forall|j: int| 0 <= j < line.len() ==> line[j] != LINE_TERMINATOR,
    ensures
        framed(line.push(LINE_TERMINATOR)) == seq![line],
{
    let c = line.push(LINE_TERMINATOR);
    assert(c[line.len() as int] == LINE_TERMINATOR);
    assert forall|j: int| 0 <= j < line.len() as int implies c[j] != LINE_TERMINATOR by {
        assert(c[j] == line[j]);
    };
    lemma_find_cr_at(c, line.len() as int);
    assert(c.take(line.len() as int) =~= line);
    assert(c.skip(line.len() as int + 1) =~= Seq::<u8>::empty());
    assert(framed(c.skip(line.len() as int + 1)) =~~= Seq::<Seq<u8>>::empty());
    assert(framed(c) == seq![c.take(line.len() as int)] + framed(c.skip(line.len() as int + 1)));
    assert(framed(c) =~~= seq![line]);
}

/// Framing splits around a boundary that ends on a whole line.
proof fn lemma_framed_concat(a: Seq<u8>, b: Seq<u8>)
    requires
        line_terminated(a),
    ensures
        framed(a + b) == framed(a) + framed(b),
    decreases a.len(),
{
    if a.len() == 0 {
        assert(a + b =~= b);
        assert(framed(a) + framed(b) =~~= framed(b));
    } else {
        lemma_find_cr(a);
        assert(a.last() == LINE_TERMINATOR);
        let i = find_cr(a);
        assert(i >= 0) by {
            if i == -1 {
                assert(a[a.len() - 1] == LINE_TERMINATOR);
            }
        }
        assert((a + b)[i] == a[i]);
        assert(forall|j: int| 0 <= j < i ==> (a + b)[j] == a[j]);
        lemma_find_cr_at(a + b, i);
        assert((a + b).take(i) =~= a.take(i));
        assert((a + b).skip(i + 1) =~= a.skip(i + 1) + b);
        assert(line_terminated(a.skip(i + 1))) by {
            if i + 1 < a.len() {
                assert(a.skip(i + 1).last() == a.last());
            }
        }
        lemma_framed_concat(a.skip(i + 1), b);
        assert(framed(a + b) =~~= framed(a) + framed(b));
    }
}

/// Decoding distributes over concatenation of line lists.
proof fn lemma_text_lines_concat(x: Seq<Seq<u8>>, y: Seq<Seq<u8>>)
    ensures
        text_lines(x + y) == text_lines(x) + text_lines(y),
    decreases x.len(),
{
    if x.len() == 0 {
        assert(x + y =~~= y);
        assert(text_lines(x) + text_lines(y) =~~= text_lines(y));
    } else {
        assert((x + y)[0] == x[0]);
        assert((x + y).skip(1) =~~= x.skip(1) + y);
        lemma_text_lines_concat(x.skip(1), y);
        assert(text_lines(x + y) =~~= text_lines(x) + text_lines(y));
    }
}

/// A list of lines that are all valid text decodes one for one.
pub proof fn lemma_text_lines_all_valid(ls: Seq<Seq<u8>>)
    requires
        forall|i: int| 0 <= i < ls.len() ==> valid_utf8(#[trigger] ls[i]),
    ensures
        text_lines(ls).len() == ls.len(),
        forall|i: int| 0 <= i < ls.len() ==> #[trigger] text_lines(ls)[i] == decode_utf8(ls[i]),
    decreases ls.len(),
{
    if ls.len() > 0 {
        assert(valid_utf8(ls[0]));
        assert(forall|i: int| 0 <= i < ls.skip(1).len() ==> #[trigger] ls.skip(1)[i] == ls[i + 1]);
        lemma_text_lines_all_valid(ls.skip(1));
        assert forall|i: int| 0 <= i < ls.len() implies #[trigger] text_lines(ls)[i]
            == decode_utf8(ls[i]) by {
            if i >= 1 {
                assert(text_lines(ls)[i] == text_lines(ls.skip(1))[i - 1]);
            }
        };
    }
}

/// The characters a pure-ASCII byte sequence spells, byte for byte.
pub open spec fn ascii_text(s: Seq<u8>) -> Seq<char> {
    Seq::new(s.len(), |i: int| s[i] as char)
}

/// Every byte below 128 is its own one-byte encoding: a pure-ASCII byte
/// sequence is valid text and decodes byte for byte.
pub proof fn lemma_ascii_bytes_text(s: Seq<u8>)
    requires
        forall|i: int| 0 <= i < s.len() ==> #[trigger] s[i] < 128,
    ensures
        valid_utf8(s),
        decode_utf8(s) == ascii_text(s),
    decreases s.len(),
{
    if s.len() == 0 {
        assert(decode_utf8(s) =~= ascii_text(s));
    } else {
        let b0 = s[0];
        assert(b0 < 128);
        assert(is_leading_byte_width_1(b0));
        assert(b0 & 0x7f == b0) by (bit_vector)
            requires b0 < 128;
        assert(length_of_first_codepoint(s) == 1);
        assert(valid_first_scalar(s));
        assert(pop_first_scalar(s) =~= s.skip(1));
        assert(forall|i: int| 0 <= i < s.skip(1).len() ==> #[trigger] s.skip(1)[i] == s[i + 1]);
        lemma_ascii_bytes_text(s.skip(1));
        assert(valid_utf8(s));
        assert(decode_utf8(s) =~= ascii_text(s));
    }
}

/// The bytes a list of lines came from: each line followed by its CR.
pub open spec fn unframed(ls: Seq<Seq<u8>>) -> Seq<u8>
    decreases ls.len(),
{
    if ls.len() == 0 {
        Seq::empty()
    } else {
        ls[0] + seq![LINE_TERMINATOR] + unframed(ls.skip(1))
    }
}

/// The framer law: splitting a fully line-terminated byte region into
/// lines loses, reorders and duplicates nothing — putting the CRs back
/// reproduces the region exactly.
pub proof fn lemma_framed_lossless(c: Seq<u8>)
    requires
        line_terminated(c),
    ensures
        unframed(framed(c)) == c,
    decreases c.len(),
{
    if c.len() == 0 {
        assert(framed(c) =~~= Seq::<Seq<u8>>::empty());
    } else {
        lemma_find_cr(c);
        assert(c.last() == LINE_TERMINATOR);
        let i = find_cr(c);
        assert(i >= 0) by {
            if i == -1 {
                assert(c[c.len() - 1] == LINE_TERMINATOR);
            }
        }
        let tail = c.skip(i + 1);
        assert(line_terminated(tail)) by {
            if i + 1 < c.len() {
                assert(tail.last() == c.last());
            }
        }
        lemma_framed_lossless(tail);
        let lines = seq![c.take(i)] + framed(tail);
        assert(framed(c) == lines);
        assert(lines[0] == c.take(i));
        assert(lines.skip(1) =~~= framed(tail));
        assert(unframed(lines) == c.take(i) + seq![LINE_TERMINATOR] + unframed(framed(tail)));
        assert(c.take(i) + seq![LINE_TERMINATOR] + tail =~= c);
    }
}

/// At most one decoded line per framed line.
proof fn lemma_text_lines_len(x: Seq<Seq<u8>>)
    ensures
        text_lines(x).len() <= x.len(),
    decreases x.len(),
{
    if x.len() > 0 {
        lemma_text_lines_len(x.skip(1));
    }
}

/// Find the first CR in a peeked buffer.
fn scan_for_cr(buf: &Vec<u8>) -> (r: Option<usize>)
    ensures
        match r {
            Some(i) => {
                &&& i < buf@.len()
                &&& buf@[i as int] == LINE_TERMINATOR
                &&& forall|j: int| 0 <= j < i ==> buf@[j] != LINE_TERMINATOR
            },
            None => forall|j: int| 0 <= j < buf@.len() ==> buf@[j] != LINE_TERMINATOR,
        },
{
    let mut i: usize = 0;
    while i < buf.len()
        invariant
            0 <= i <= buf@.len(),
            forall|j: int| 0 <= j < i ==> buf@[j] != LINE_TERMINATOR,
        decreases buf@.len() - i,
    {
        if buf[i] == LINE_TERMINATOR {
            return Some(i);
        }
        i = i + 1;
    }
    None
}

/// The line framer: produce up to `lines` complete, CR-terminated,
/// CR-stripped lines from the stream, consuming only whole lines.
///
/// Exactly the consumed bytes come back, split at the CRs, decoded; a
/// consumed line that is not valid text ends the attempt and is
/// dropped.  An error or the end of the stream before the first line
/// fails; after at least one consumed line it ends the attempt and the
/// lines so far are returned.  Fewer lines than asked for mean that the
/// stream faulted, that no whole line was in view, or that a line was
/// dropped.
pub fn read<R: ReadStream>(stream: &mut R, lines: u8) -> (r: Result<Vec<String>, TransportError>)
    requires
        old(stream).pos() <= old(stream).bytes().len(),
    ensures
        old(stream).bytes().is_prefix_of(final(stream).bytes()),
        final(stream).pos() <= final(stream).bytes().len(),
        old(stream).fault_log().is_prefix_of(final(stream).fault_log()),
        final(stream).is_settled() == old(stream).is_settled(),
        old(stream).is_settled() ==> final(stream).bytes() == old(stream).bytes(),
        match r {
            Ok(ls) => {
                &&& old(stream).pos() <= final(stream).pos()
                &&& ({
                    let consumed = final(stream).bytes().subrange(
                        old(stream).pos() as int,
                        final(stream).pos() as int,
                    );
                    &&& line_terminated(consumed)
                    &&& ls.deep_view() == decoded_lines(consumed)
                    &&& ls@.len() <= lines as int
                    &&& (ls@.len() < lines as int ==> final(stream).fault_log().len() > old(
                        stream,
                    ).fault_log().len() || !line_available(
                        final(stream).bytes(),
                        final(stream).pos() as int,
                    ) || framed(consumed).len() > ls@.len())
                })
                &&& (lines > 0 && final(stream).pos() == old(stream).pos()
                    ==> final(stream).fault_log() == old(stream).fault_log()
                        && old(stream).pos() < final(stream).bytes().len())
                &&& (final(stream).pos() > old(stream).pos() ==> line_available(
                    final(stream).bytes(),
                    old(stream).pos() as int,
                ))
                &&& (lines > 0 && ls@.len() == 0 ==> final(stream).fault_log() == old(
                    stream,
                ).fault_log())
            },
            Err(e) => {
                &&& final(stream).pos() == old(stream).pos()
                &&& (final(stream).fault_log() == old(stream).fault_log().push(e) || (e
                    == TransportError::ClosedLocally && final(stream).pos()
                    == final(stream).bytes().len() && final(stream).fault_log() == old(
                    stream,
                ).fault_log()))
            },
        },
{
    let mut result: Vec<String> = Vec::new();
    let mut consumed_any = false;
    proof {
        assert(stream.bytes().subrange(
            old(stream).pos() as int,
            old(stream).pos() as int,
        ) =~= Seq::<u8>::empty());
        assert(result.deep_view() =~~= Seq::<Seq<char>>::empty());
    }
    while result.len() < lines as usize
        invariant
            stream.pos() <= stream.bytes().len(),
            old(stream).bytes().is_prefix_of(stream.bytes()),
            old(stream).pos() <= stream.pos(),
            stream.is_settled() == old(stream).is_settled(),
            old(stream).is_settled() ==> stream.bytes() == old(stream).bytes(),
            consumed_any == (old(stream).pos() < stream.pos()),
            consumed_any ==> result@.len() >= 1,
            consumed_any ==> line_available(stream.bytes(), old(stream).pos() as int),
            stream.fault_log() == old(stream).fault_log(),
            line_terminated(
                stream.bytes().subrange(old(stream).pos() as int, stream.pos() as int),
            ),
            result.deep_view() == decoded_lines(
                stream.bytes().subrange(old(stream).pos() as int, stream.pos() as int),
            ),
            result@.len() <= lines as int,
        decreases lines as int - result@.len(),
    {
        let ghost loop_bytes = stream.bytes();
        let ghost loop_pos = stream.pos();
        let peeked = match stream.peekly(READ_BUFFER_SIZE) {
            Ok(v) => v,
            Err(e) => {
                if consumed_any {
                    proof {
                        lemma_subrange_of_prefix(
                            loop_bytes,
                            stream.bytes(),
                            old(stream).pos() as int,
                            stream.pos() as int,
                        );
                    }
                    return Ok(result);
                } else {
                    return Err(e);
                }
            },
        };
        if peeked.len() == 0 {
            if consumed_any {
                proof {
                    lemma_subrange_of_prefix(
                        loop_bytes,
                        stream.bytes(),
                        old(stream).pos() as int,
                        stream.pos() as int,
                    );
                }
                return Ok(result);
            } else {
                return Err(TransportError::ClosedLocally);
            }
        }
        let cr = scan_for_cr(&peeked);
        match cr {
            None => {
                proof {
                    lemma_subrange_of_prefix(
                        loop_bytes,
                        stream.bytes(),
                        old(stream).pos() as int,
                        stream.pos() as int,
                    );
                    assert forall|i: int|
                        stream.pos() <= i < stream.bytes().len() && i - stream.pos()
                            < READ_BUFFER_SIZE implies stream.bytes()[i]
                        != LINE_TERMINATOR by {
                        assert(i - stream.pos() < peeked@.len());
                        assert(stream.bytes()[i] == peeked@[i - stream.pos()]);
                    };
                    assert(!line_available(stream.bytes(), stream.pos() as int));
                }
                return Ok(result);
            },
            Some(cr_at) => {
                let ghost pre_read = stream.bytes();
                let ghost pre_pos = stream.pos();
                match stream.read_exactly(cr_at + 1) {
                    Err(e) => {
                        if consumed_any {
                            proof {
                                lemma_subrange_of_prefix(
                                    loop_bytes,
                                    stream.bytes(),
                                    old(stream).pos() as int,
                                    stream.pos() as int,
                                );
                            }
                            return Ok(result);
                        } else {
                            return Err(e);
                        }
                    },
                    Ok(chunk) => {
                        proof {
                            lemma_subrange_of_prefix(
                                pre_read,
                                stream.bytes(),
                                pre_pos as int,
                                pre_pos + cr_at + 1,
                            );
                        }
                        let ghost whole = chunk@;
                        let mut line_bytes = chunk;
                        let _last = line_bytes.pop();
                        proof {
                            assert(whole =~= peeked@.subrange(0, cr_at + 1));
                            assert(line_bytes@ =~= whole.take(cr_at as int));
                            assert(forall|j: int|
                                0 <= j < cr_at ==> line_bytes@[j] == #[trigger] peeked@[j]);
                            assert(whole =~= line_bytes@.push(LINE_TERMINATOR));
                            lemma_framed_single(line_bytes@);
                            // The consumed region grows by exactly this line.
                            let before = stream.bytes().subrange(
                                old(stream).pos() as int,
                                pre_pos as int,
                            );
                            let after = stream.bytes().subrange(
                                old(stream).pos() as int,
                                stream.pos() as int,
                            );
                            assert(loop_bytes.subrange(old(stream).pos() as int, loop_pos as int)
                                =~= before) by {
                                lemma_subrange_of_prefix(
                                    loop_bytes,
                                    stream.bytes(),
                                    old(stream).pos() as int,
                                    loop_pos as int,
                                );
                            }
                            assert(after =~= before + whole);
                            lemma_framed_concat(before, whole);
                            lemma_text_lines_concat(framed(before), framed(whole));
                            assert(decoded_lines(after) =~~= decoded_lines(before) + text_lines(
                                seq![line_bytes@],
                            ));
                        }
                        let ghost before_view = result.deep_view();
                        match bytes_to_string(line_bytes) {
                            Some(s) => {
                                result.push(s);
                                proof {
                                    assert(result.deep_view() =~~= before_view.push(s@));
                                    assert(text_lines(seq![whole.take(cr_at as int)])
                                        =~~= seq![s@]) by {
                                        let sing = seq![whole.take(cr_at as int)];
                                        assert(sing.len() == 1);
                                        assert(sing[0] == whole.take(cr_at as int));
                                        assert(sing[0] =~= line_bytes@);
                                        assert(valid_utf8(sing[0]));
                                        assert(sing.skip(1) =~~= Seq::<Seq<u8>>::empty());
                                        assert(text_lines(sing.skip(1))
                                            =~~= Seq::<Seq<char>>::empty());
                                        assert(decode_utf8(sing[0]) == s@);
                                    }
                                    assert(result.deep_view() =~~= decoded_lines(
                                        stream.bytes().subrange(
                                            old(stream).pos() as int,
                                            stream.pos() as int,
                                        ),
                                    ));
                                }
                                consumed_any = true;
                            },
                            None => {
                                proof {
                                    let lb = whole.take(cr_at as int);
                                    assert(text_lines(seq![lb]) =~~= Seq::<Seq<char>>::empty())
                                        by {
                                        let sing = seq![lb];
                                        assert(sing.len() == 1);
                                        assert(sing[0] == lb);
                                        assert(lb =~= line_bytes@);
                                        assert(!valid_utf8(sing[0]));
                                        assert(sing.skip(1) =~~= Seq::<Seq<u8>>::empty());
                                        assert(text_lines(sing.skip(1))
                                            =~~= Seq::<Seq<char>>::empty());
                                    }
                                    let after = stream.bytes().subrange(
                                        old(stream).pos() as int,
                                        stream.pos() as int,
                                    );
                                    let before = stream.bytes().subrange(
                                        old(stream).pos() as int,
                                        pre_pos as int,
                                    );
                                    assert(result.deep_view() =~~= decoded_lines(after));
                                    assert(framed(after).len() == framed(before).len() + 1);
                                    lemma_text_lines_len(framed(before));
                                    assert(framed(after).len() > result.deep_view().len());
                                    assert(result@.len() == result.deep_view().len());
                                }
                                return Ok(result);
                            },
                        }
                    },
                }
            },
        }
    }
    proof {
        if lines > 0 && stream.pos() == old(stream).pos() {
            assert(stream.bytes().subrange(old(stream).pos() as int, stream.pos() as int)
                =~= Seq::<u8>::empty());
            assert(decoded_lines(Seq::<u8>::empty()) =~~= Seq::<Seq<char>>::empty());
            assert(result.deep_view().len() == 0);
            assert(result@.len() == 0);
        }
    }
    Ok(result)
}

/// A subrange within a prefix reads the same in any extension.
proof fn lemma_subrange_of_prefix(a: Seq<u8>, b: Seq<u8>, from: int, to: int)
    requires
        a.is_prefix_of(b),
        0 <= from <= to <= a.len(),
    ensures
        a.subrange(from, to) == b.subrange(from, to),
{
    assert(a.subrange(from, to) =~= b.subrange(from, to));
}

proof fn lemma_prefix_trans(a: Seq<TransportError>, b: Seq<TransportError>, c: Seq<TransportError>)
    requires
        a.is_prefix_of(b),
        b.is_prefix_of(c),
    ensures
        a.is_prefix_of(c),
{
    assert(a =~= c.subrange(0, a.len() as int));
}

proof fn lemma_prefix_push(a: Seq<TransportError>, b: Seq<TransportError>, e: TransportError)
    requires
        a.is_prefix_of(b),
    ensures
        a.is_prefix_of(b.push(e)),
{
    assert(a =~= b.push(e).subrange(0, a.len() as int));
}

/// The state cache: the last value the receiver reported for each key.
/// At most one entry per key, none at connection start; an entry is
/// overwritten by a newer report and never removed.
#[derive(Debug, Clone, Copy)]
pub struct Cache {
    power: Option<StateValue>,
    source_input: Option<StateValue>,
    main_volume: Option<StateValue>,
    max_volume: Option<StateValue>,
}

impl Cache {
    /// The entry for `op`, if the receiver has reported one.
    pub closed spec fn get_spec(self, op: State) -> Option<StateValue> {
        match op {
            State::Power => self.power,
            State::SourceInput => self.source_input,
            State::MaxVolume => self.max_volume,
            State::MainVolume => self.main_volume,
        }
    }

    /// The cache with the entry for `op` set to `value`.
    pub closed spec fn upserted(self, op: State, value: StateValue) -> Cache {
        match op {
            State::Power => Cache { power: Some(value), ..self },
            State::SourceInput => Cache { source_input: Some(value), ..self },
            State::MaxVolume => Cache { max_volume: Some(value), ..self },
            State::MainVolume => Cache { main_volume: Some(value), ..self },
        }
    }

    /// An upsert changes exactly the entry of its own key.
    pub proof fn lemma_upserted(self, op: State, value: StateValue, k: State)
        ensures
            self.upserted(op, value).get_spec(k) == (if k == op {
                Some(value)
            } else {
                self.get_spec(k)
            }),
    {
    }

    /// An empty cache.
    pub fn new() -> (r: Cache)
        ensures
            forall|k: State| #[trigger] r.get_spec(k) == None::<StateValue>,
    {
        Cache { power: None, source_input: None, main_volume: None, max_volume: None }
    }

    /// The entry for `op`, if any.
    pub fn get(&self, op: State) -> (r: Option<StateValue>)
        ensures
            r == self.get_spec(op),
    {
        match op {
            State::Power => self.power,
            State::SourceInput => self.source_input,
            State::MaxVolume => self.max_volume,
            State::MainVolume => self.main_volume,
        }
    }

    /// Insert or overwrite the entry for `op`.
    pub fn upsert(&mut self, op: State, value: StateValue)
        ensures
            *final(self) == old(self).upserted(op, value),
    {
        match op {
            State::Power => {
                self.power = Some(value);
            },
            State::SourceInput => {
                self.source_input = Some(value);
            },
            State::MaxVolume => {
                self.max_volume = Some(value);
            },
            State::MainVolume => {
                self.main_volume = Some(value);
            },
        }
    }
}

/// The reports carried by a list of received lines, in order; lines that
/// decode to nothing are dropped.
pub open spec fn reports_of(lines: Seq<Seq<char>>) -> Seq<SetState>
    decreases lines.len(),
{
    if lines.len() == 0 {
        Seq::empty()
    } else {
        (match parse_spec(lines[0]) {
            Some(ss) => seq![ss],
            None => Seq::<SetState>::empty(),
        }) + reports_of(lines.skip(1))
    }
}

proof fn lemma_reports_concat(x: Seq<Seq<char>>, y: Seq<Seq<char>>)
    ensures
        reports_of(x + y) == reports_of(x) + reports_of(y),
    decreases x.len(),
{
    if x.len() == 0 {
        assert(x + y =~~= y);
        assert(reports_of(x) + reports_of(y) =~= reports_of(y));
    } else {
        assert((x + y)[0] == x[0]);
        assert((x + y).skip(1) =~~= x.skip(1) + y);
        lemma_reports_concat(x.skip(1), y);
        assert(reports_of(x + y) =~= reports_of(x) + reports_of(y));
    }
}

/// The cache after applying a list of reports, in order: the last
/// report per key wins.
pub open spec fn cache_after(c: Cache, reports: Seq<SetState>) -> Cache
    decreases reports.len(),
{
    if reports.len() == 0 {
        c
    } else {
        cache_after(
            c.upserted(set_state_key(reports[0]), set_state_value(reports[0])),
            reports.skip(1),
        )
    }
}

proof fn lemma_cache_after_concat(c: Cache, x: Seq<SetState>, y: Seq<SetState>)
    ensures
        cache_after(c, x + y) == cache_after(cache_after(c, x), y),
    decreases x.len(),
{
    if x.len() == 0 {
        assert(x + y =~= y);
    } else {
        assert((x + y)[0] == x[0]);
        assert((x + y).skip(1) =~= x.skip(1) + y);
        lemma_cache_after_concat(
            c.upserted(set_state_key(x[0]), set_state_value(x[0])),
            x.skip(1),
            y,
        );
    }
}

/// The value of the last report in a batch that addresses key `k`, if
/// any does.
pub open spec fn last_report_for(reports: Seq<SetState>, k: State) -> Option<StateValue>
    decreases reports.len(),
{
    if reports.len() == 0 {
        None
    } else if set_state_key(reports.last()) == k {
        Some(set_state_value(reports.last()))
    } else {
        last_report_for(reports.drop_last(), k)
    }
}

/// The cache law: applying a batch of reports in wire order leaves each
/// key holding the value of the last report addressed to it, and leaves
/// a key that no report addresses untouched.  The newest report always
/// wins, and nothing is ever removed.
pub proof fn lemma_last_report_wins(c: Cache, reports: Seq<SetState>, k: State)
    ensures
        cache_after(c, reports).get_spec(k) == (match last_report_for(reports, k) {
            Some(v) => Some(v),
            None => c.get_spec(k),
        }),
    decreases reports.len(),
{
    if reports.len() > 0 {
        let front = reports.drop_last();
        let last = reports.last();
        assert(reports =~= front + seq![last]);
        lemma_cache_after_concat(c, front, seq![last]);
        let applied = cache_after(c, front);
        assert(seq![last].len() == 1);
        assert(seq![last][0] == last);
        assert(seq![last].skip(1) =~= Seq::<SetState>::empty());
        assert(seq![last].skip(1).len() == 0);
        let upserted_once = applied.upserted(set_state_key(last), set_state_value(last));
        assert(cache_after(upserted_once, seq![last].skip(1)) == upserted_once);
        assert(cache_after(applied, seq![last]) == upserted_once);
        lemma_last_report_wins(c, front, k);
    }
}

/// Decode a batch of received lines into the reports they carry.
pub fn parse_response(response: &Vec<String>) -> (r: Vec<SetState>)
    ensures
        r@ == reports_of(response.deep_view()),
{
    let ghost dv = response.deep_view();
    let mut r: Vec<SetState> = Vec::new();
    let mut i: usize = 0;
    proof {
        assert(dv.skip(0) =~~= dv);
        assert(r@ + reports_of(dv) =~= reports_of(dv));
    }
    while i < response.len()
        invariant
            0 <= i <= response@.len(),
            dv == response.deep_view(),
            dv.len() == response@.len(),
            reports_of(dv) == r@ + reports_of(dv.skip(i as int)),
        decreases response@.len() - i,
    {
        proof {
            assert(dv.skip(i as int)[0] == dv[i as int]);
            assert(dv[i as int] == response@[i as int]@);
            assert(dv.skip(i as int).skip(1) =~~= dv.skip(i as int + 1));
        }
        let ghost r_before = r@;
        match parse(response[i].as_str()) {
            Some(ss) => {
                r.push(ss);
                proof {
                    assert(r@ =~= r_before + seq![ss]);
                    assert((r_before + seq![ss]) + reports_of(dv.skip(i as int + 1)) =~= r_before
                        + (seq![ss] + reports_of(dv.skip(i as int + 1))));
                }
            },
            None => {
                proof {
                    assert(Seq::<SetState>::empty() + reports_of(dv.skip(i as int + 1))
                        =~= reports_of(dv.skip(i as int + 1)));
                }
            },
        }
        i = i + 1;
    }
    proof {
        assert(dv.skip(i as int) =~~= Seq::<Seq<char>>::empty());
        assert(r@ + Seq::<SetState>::empty() =~= r@);
    }
    r
}

/// The body of the background sync loop, bounded to `max_steps` read
/// attempts: frame one line at a time, decode it, upsert the report into
/// the cache.  A transient error is ignored; seeing the connection
/// closed locally is the clean end and returns `Ok`; any other error is
/// fatal and comes back, as the last entry of the stream's fault log.
/// The cache ends exactly as the reports in the consumed bytes dictate,
/// applied in wire order, and the loop cannot idle: while it has steps
/// left, no fault, and a whole line in view, it keeps framing.
pub fn thread_func_impl<R: ReadStream>(
    stream: &mut R,
    state: &mut Cache,
    max_steps: u32,
) -> (r: Result<(), TransportError>)
    requires
        old(stream).pos() <= old(stream).bytes().len(),
    ensures
        old(stream).bytes().is_prefix_of(final(stream).bytes()),
        final(stream).pos() <= final(stream).bytes().len(),
        old(stream).pos() <= final(stream).pos(),
        old(stream).fault_log().is_prefix_of(final(stream).fault_log()),
        final(stream).is_settled() == old(stream).is_settled(),
        old(stream).is_settled() ==> final(stream).bytes() == old(stream).bytes(),
        ({
            let consumed = final(stream).bytes().subrange(
                old(stream).pos() as int,
                final(stream).pos() as int,
            );
            line_terminated(consumed) && *final(state) == cache_after(
                *old(state),
                reports_of(decoded_lines(consumed)),
            )
        }),
        // Progress: granted at least one step, with no fault and a whole
        // line in view at the end, the loop has framed at least one line.
        (r is Ok && max_steps > 0 && final(stream).fault_log() == old(stream).fault_log()
            && line_available(final(stream).bytes(), final(stream).pos() as int) ==> framed(
            final(stream).bytes().subrange(old(stream).pos() as int, final(stream).pos() as int),
        ).len() >= 1),
        // On a settled, fault-free stream the loop frames one line per
        // step: a whole line can be left in view only when the step
        // budget was spent framing.
        (r is Ok && old(stream).is_settled() && final(stream).fault_log() == old(
            stream,
        ).fault_log() && line_available(final(stream).bytes(), final(stream).pos() as int)
            ==> framed(
            final(stream).bytes().subrange(old(stream).pos() as int, final(stream).pos() as int),
        ).len() >= max_steps as int),
        // A run that consumed nothing swallows only timeout-class faults
        // and the local-shutdown signal; any other fault comes back.
        (r is Ok && final(stream).pos() == old(stream).pos() ==> forall|k: int|
            old(stream).fault_log().len() <= k < final(stream).fault_log().len()
                ==> is_transient_error(#[trigger] final(stream).fault_log()[k])
                || final(stream).fault_log()[k] == TransportError::ClosedLocally),
        match r {
            Ok(()) => true,
            Err(e) => e != TransportError::TimedOut && e != TransportError::WouldBlock && e
                != TransportError::ClosedLocally
                && final(stream).fault_log().len() > old(stream).fault_log().len()
                && final(stream).fault_log().last() == e,
        },
{
    let mut step: u32 = 0;
    proof {
        assert(stream.bytes().subrange(old(stream).pos() as int, old(stream).pos() as int)
            =~= Seq::<u8>::empty());
        assert(reports_of(decoded_lines(Seq::<u8>::empty())) =~= Seq::<SetState>::empty());
    }
    while step < max_steps
        invariant
            stream.pos() <= stream.bytes().len(),
            old(stream).bytes().is_prefix_of(stream.bytes()),
            old(stream).pos() <= stream.pos(),
            old(stream).fault_log().is_prefix_of(stream.fault_log()),
            stream.is_settled() == old(stream).is_settled(),
            old(stream).is_settled() ==> stream.bytes() == old(stream).bytes(),
            line_terminated(
                stream.bytes().subrange(old(stream).pos() as int, stream.pos() as int),
            ),
            *state == cache_after(
                *old(state),
                reports_of(decoded_lines(
                    stream.bytes().subrange(old(stream).pos() as int, stream.pos() as int),
                )),
            ),
            step > 0 ==> framed(
                stream.bytes().subrange(old(stream).pos() as int, stream.pos() as int),
            ).len() >= 1 || stream.fault_log().len() > old(stream).fault_log().len()
                || !line_available(stream.bytes(), stream.pos() as int),
            old(stream).is_settled() ==> framed(
                stream.bytes().subrange(old(stream).pos() as int, stream.pos() as int),
            ).len() >= step || stream.fault_log().len() > old(stream).fault_log().len()
                || !line_available(stream.bytes(), stream.pos() as int),
            stream.pos() == old(stream).pos() ==> forall|k: int|
                old(stream).fault_log().len() <= k < stream.fault_log().len()
                    ==> is_transient_error(#[trigger] stream.fault_log()[k]) || stream.fault_log()[
                    k] == TransportError::ClosedLocally,
        decreases max_steps - step,
    {
        let ghost loop_bytes = stream.bytes();
        let ghost loop_pos = stream.pos();
        let ghost loop_log = stream.fault_log();
        match read(stream, 1) {
            Ok(status_update) => {
                let ghost consumed_before = loop_bytes.subrange(
                    old(stream).pos() as int,
                    loop_pos as int,
                );
                let ghost delta = stream.bytes().subrange(loop_pos as int, stream.pos() as int);
                let ghost consumed_now = stream.bytes().subrange(
                    old(stream).pos() as int,
                    stream.pos() as int,
                );
                proof {
                    lemma_subrange_of_prefix(
                        loop_bytes,
                        stream.bytes(),
                        old(stream).pos() as int,
                        loop_pos as int,
                    );
                    assert(consumed_now =~= consumed_before + delta);
                    lemma_framed_concat(consumed_before, delta);
                    lemma_text_lines_concat(framed(consumed_before), framed(delta));
                    lemma_reports_concat(
                        decoded_lines(consumed_before),
                        decoded_lines(delta),
                    );
                    lemma_cache_after_concat(
                        *old(state),
                        reports_of(decoded_lines(consumed_before)),
                        reports_of(decoded_lines(delta)),
                    );
                }
                let parsed_response = parse_response(&status_update);
                let ghost cache_entry = *state;
                let ghost reps = parsed_response@;
                let ghost stream_snap_bytes = stream.bytes();
                let ghost stream_snap_pos = stream.pos();
                let ghost stream_snap_log = stream.fault_log();
                let ghost stream_snap_settled = stream.is_settled();
                let mut j: usize = 0;
                proof {
                    assert(reps.skip(0) =~= reps);
                }
                while j < parsed_response.len()
                    invariant
                        0 <= j <= parsed_response@.len(),
                        reps == parsed_response@,
                        stream.bytes() == stream_snap_bytes,
                        stream.pos() == stream_snap_pos,
                        stream.fault_log() == stream_snap_log,
                        stream.is_settled() == stream_snap_settled,
                        cache_after(cache_entry, reps) == cache_after(
                            *state,
                            reps.skip(j as int),
                        ),
                    decreases parsed_response@.len() - j,
                {
                    proof {
                        assert(reps.skip(j as int)[0] == reps[j as int]);
                        assert(reps.skip(j as int).skip(1) =~= reps.skip(j as int + 1));
                    }
                    let ss = parsed_response[j];
                    let converted = ss.convert();
                    state.upsert(converted.0, converted.1);
                    j = j + 1;
                }
                proof {
                    assert(reps.skip(parsed_response@.len() as int) =~= Seq::<SetState>::empty());
                    assert(*state == cache_after(cache_entry, reps));
                    lemma_prefix_trans(
                        old(stream).fault_log(),
                        loop_log,
                        stream.fault_log(),
                    );
                    let consumed_now = stream.bytes().subrange(
                        old(stream).pos() as int,
                        stream.pos() as int,
                    );
                    assert(status_update.deep_view().len() == status_update@.len());
                    if status_update@.len() >= 1 {
                        lemma_text_lines_len(framed(delta));
                        assert(framed(consumed_now).len() >= 1);
                    } else {
                        assert(stream.fault_log().len() > loop_log.len() || !line_available(
                            stream.bytes(),
                            stream.pos() as int,
                        ) || framed(delta).len() > 0);
                        assert(loop_log.len() >= old(stream).fault_log().len());
                    }
                    if stream.pos() == old(stream).pos() {
                        assert(stream.fault_log() == loop_log);
                    }
                }
            },
            Err(e) => {
                if e.is_transient() {
                    proof {
                        lemma_subrange_of_prefix(
                            loop_bytes,
                            stream.bytes(),
                            old(stream).pos() as int,
                            stream.pos() as int,
                        );
                        assert(stream.fault_log() == loop_log.push(e));
                        lemma_prefix_push(old(stream).fault_log(), loop_log, e);
                        assert(loop_log.len() >= old(stream).fault_log().len());
                        assert forall|k: int|
                            old(stream).fault_log().len() <= k < stream.fault_log().len()
                                && stream.pos() == old(stream).pos() implies is_transient_error(
                            #[trigger] stream.fault_log()[k],
                        ) || stream.fault_log()[k] == TransportError::ClosedLocally by {
                            if k < loop_log.len() {
                                assert(stream.fault_log()[k] == loop_log[k]);
                            } else {
                                assert(stream.fault_log()[k] == e);
                            }
                        };
                    }
                } else {
                    proof {
                        lemma_subrange_of_prefix(
                            loop_bytes,
                            stream.bytes(),
                            old(stream).pos() as int,
                            stream.pos() as int,
                        );
                        assert(loop_log.len() >= old(stream).fault_log().len());
                        if e != TransportError::ClosedLocally {
                            assert(stream.fault_log() == loop_log.push(e));
                            lemma_prefix_push(old(stream).fault_log(), loop_log, e);
                        } else {
                            if stream.fault_log() == loop_log.push(e) {
                                lemma_prefix_push(old(stream).fault_log(), loop_log, e);
                            }
                            if stream.pos() == old(stream).pos() {
                                assert forall|k: int|
                                    old(stream).fault_log().len() <= k < stream.fault_log().len()
                                        implies is_transient_error(
                                    #[trigger] stream.fault_log()[k],
                                ) || stream.fault_log()[k] == TransportError::ClosedLocally by {
                                    if k < loop_log.len() {
                                        assert(stream.fault_log()[k] == loop_log[k]);
                                    } else {
                                        assert(stream.fault_log() == loop_log.push(e));
                                        assert(stream.fault_log()[k] == e);
                                    }
                                };
                            }
                        }
                    }
                    if e == TransportError::ClosedLocally {
                        return Ok(());
                    } else {
                        return Err(e);
                    }
                }
            },
        }
        step = step + 1;
    }
    Ok(())
}

/// The CR that terminates a command on the wire.
fn terminator_str() -> (r: &'static str)
    ensures
        r@ == seq!['\r'],
{
    proof {
        reveal_strlit("\r");
    }
    "\r"
}

fn query_suffix_str() -> (r: &'static str)
    ensures
        r@ == seq!['?', '\r'],
{
    proof {
        reveal_strlit("?\r");
    }
    "?\r"
}

/// The full wire form of a set command: key prefix, value, CR.
pub open spec fn command_wire(s: SetState) -> Seq<char> {
    crate::state::set_state_wire(s) + seq!['\r']
}

/// The full wire form of a query: key prefix, `?`, CR.
pub open spec fn query_wire(k: State) -> Seq<char> {
    crate::state::state_prefix(k) + seq!['?', '\r']
}

/// Write a whole string to the connection.
pub fn write_string<S: ConnectionStream>(stream: &mut S, input: String) -> (r: Result<
    (),
    TransportError,
>)
    ensures
        final(stream).is_shut_down() == old(stream).is_shut_down(),
        match r {
            Ok(()) => {
                &&& final(stream).written() == old(stream).written() + input@
                &&& final(stream).write_faults() == old(stream).write_faults()
            },
            Err(_) => {
                &&& old(stream).written().is_prefix_of(final(stream).written())
                &&& final(stream).write_faults() == old(stream).write_faults() + 1
            },
        },
{
    stream.write_str_all(input.as_str())
}

/// Encode a set command and write it, CR-terminated.
pub fn write_state<S: ConnectionStream>(stream: &mut S, state: SetState) -> (r: Result<
    (),
    TransportError,
>)
    ensures
        final(stream).is_shut_down() == old(stream).is_shut_down(),
        match r {
            Ok(()) => {
                &&& final(stream).written() == old(stream).written() + command_wire(state)
                &&& final(stream).write_faults() == old(stream).write_faults()
            },
            Err(_) => {
                &&& old(stream).written().is_prefix_of(final(stream).written())
                &&& final(stream).write_faults() == old(stream).write_faults() + 1
            },
        },
{
    let mut command = state.value();
    command.append(terminator_str());
    write_string(stream, command)
}

/// Encode a query command and write it.
pub fn write_query<S: ConnectionStream>(stream: &mut S, state: State) -> (r: Result<
    (),
    TransportError,
>)
    ensures
        final(stream).is_shut_down() == old(stream).is_shut_down(),
        match r {
            Ok(()) => {
                &&& final(stream).written() == old(stream).written() + query_wire(state)
                &&& final(stream).write_faults() == old(stream).write_faults()
            },
            Err(_) => {
                &&& old(stream).written().is_prefix_of(final(stream).written())
                &&& final(stream).write_faults() == old(stream).write_faults() + 1
            },
        },
{
    let mut command = state.value();
    command.append(query_suffix_str());
    write_string(stream, command)
}

/// The value a `get` answers for key `k` from cache `c`: the cached
/// entry, or `Unknown` when there is none.
pub open spec fn cached_or_unknown(c: Cache, k: State) -> StateValue {
    match c.get_spec(k) {
        Some(v) => v,
        None => StateValue::Unknown,
    }
}

/// The connection facade: it owns the write side of the connection and
/// the cache that the sync loop fills.
///
/// Around the library, the cache is shared with the thread that runs
/// the sync loop and `get` re-checks it under a poll budget; here the
/// facade is single-threaded, and the sync loop is driven explicitly
/// through [`DenonConnection::run_sync`].
pub struct DenonConnection<S: ConnectionStream> {
    state: Cache,
    to_receiver: S,
}

impl<S: ConnectionStream> DenonConnection<S> {
    /// The cache of last-reported values.
    pub closed spec fn cache(self) -> Cache {
        self.state
    }

    /// The write side of the connection.
    pub closed spec fn transport(self) -> S {
        self.to_receiver
    }

    /// A facade over a freshly opened connection: the cache starts
    /// empty.
    pub fn new(to_receiver: S) -> (r: DenonConnection<S>)
        ensures
            r.transport() == to_receiver,
            forall|k: State| #[trigger] r.cache().get_spec(k) == None::<StateValue>,
    {
        DenonConnection { state: Cache::new(), to_receiver }
    }

    /// Answer `op` from the cache; on a miss, write one query command
    /// and answer `Unknown`.  The device's later report, fed through the
    /// sync loop, fills the cache for the next call: ordering between a
    /// command and the next report is only eventually consistent.
    pub fn get(&mut self, op: State) -> (r: Result<StateValue, TransportError>)
        ensures
            final(self).cache() == old(self).cache(),
            final(self).transport().is_shut_down() == old(self).transport().is_shut_down(),
            match r {
                Ok(v) => {
                    &&& v == cached_or_unknown(old(self).cache(), op)
                    &&& final(self).transport().written() == old(self).transport().written()
                        + (if old(self).cache().get_spec(op) is Some {
                        Seq::<char>::empty()
                    } else {
                        query_wire(op)
                    })
                    &&& final(self).transport().write_faults() == old(
                        self,
                    ).transport().write_faults()
                },
                Err(_) => {
                    &&& old(self).cache().get_spec(op) is None
                    &&& old(self).transport().written().is_prefix_of(
                        final(self).transport().written(),
                    )
                    &&& final(self).transport().write_faults() == old(
                        self,
                    ).transport().write_faults() + 1
                },
            },
    {
        match self.state.get(op) {
            Some(received_state) => {
                proof {
                    assert(self.to_receiver.written() + Seq::<char>::empty()
                        =~= self.to_receiver.written());
                }
                Ok(received_state)
            },
            None => {
                match write_query(&mut self.to_receiver, op) {
                    Ok(()) => Ok(StateValue::Unknown),
                    Err(e) => Err(e),
                }
            },
        }
    }

    /// Encode a set command for `sstate` and write it; fire and forget.
    pub fn set(&mut self, sstate: SetState) -> (r: Result<(), TransportError>)
        ensures
            final(self).cache() == old(self).cache(),
            final(self).transport().is_shut_down() == old(self).transport().is_shut_down(),
            match r {
                Ok(()) => {
                    &&& final(self).transport().written() == old(self).transport().written()
                        + command_wire(sstate)
                    &&& final(self).transport().write_faults() == old(
                        self,
                    ).transport().write_faults()
                },
                Err(_) => {
                    &&& old(self).transport().written().is_prefix_of(
                        final(self).transport().written(),
                    )
                    &&& final(self).transport().write_faults() == old(
                        self,
                    ).transport().write_faults() + 1
                },
            },
    {
        write_state(&mut self.to_receiver, sstate)
    }

    /// The transport, for looking at what has been written.
    pub fn transport_ref(&self) -> (r: &S)
        ensures
            *r == self.transport(),
    {
        &self.to_receiver
    }

    /// Shut the connection down; the sync loop observes this as its
    /// clean end.
    pub fn stop(&mut self) -> (r: Result<(), TransportError>)
        ensures
            final(self).cache() == old(self).cache(),
            final(self).transport().written() == old(self).transport().written(),
            match r {
                Ok(()) => {
                    &&& final(self).transport().is_shut_down()
                    &&& final(self).transport().write_faults() == old(
                        self,
                    ).transport().write_faults()
                },
                Err(_) => {
                    &&& final(self).transport().is_shut_down() == old(
                        self,
                    ).transport().is_shut_down()
                    &&& final(self).transport().write_faults() == old(
                        self,
                    ).transport().write_faults() + 1
                },
            },
    {
        self.to_receiver.shutdownly()
    }

    /// Drive the sync loop against the read side of the same
    /// connection, for at most `max_steps` read attempts, filling this
    /// facade's cache.
    pub fn run_sync<R: ReadStream>(&mut self, reader: &mut R, max_steps: u32) -> (r: Result<
        (),
        TransportError,
    >)
        requires
            old(reader).pos() <= old(reader).bytes().len(),
        ensures
            final(self).transport() == old(self).transport(),
            old(reader).bytes().is_prefix_of(final(reader).bytes()),
            final(reader).pos() <= final(reader).bytes().len(),
            old(reader).pos() <= final(reader).pos(),
            old(reader).fault_log().is_prefix_of(final(reader).fault_log()),
            final(reader).is_settled() == old(reader).is_settled(),
            old(reader).is_settled() ==> final(reader).bytes() == old(reader).bytes(),
            ({
                let consumed = final(reader).bytes().subrange(
                    old(reader).pos() as int,
                    final(reader).pos() as int,
                );
                line_terminated(consumed) && final(self).cache() == cache_after(
                    old(self).cache(),
                    reports_of(decoded_lines(consumed)),
                )
            }),
            (r is Ok && max_steps > 0 && final(reader).fault_log() == old(reader).fault_log()
                && line_available(final(reader).bytes(), final(reader).pos() as int) ==> framed(
                final(reader).bytes().subrange(
                    old(reader).pos() as int,
                    final(reader).pos() as int,
                ),
            ).len() >= 1),
            (r is Ok && old(reader).is_settled() && final(reader).fault_log() == old(
                reader,
            ).fault_log() && line_available(final(reader).bytes(), final(reader).pos() as int)
                ==> framed(
                final(reader).bytes().subrange(
                    old(reader).pos() as int,
                    final(reader).pos() as int,
                ),
            ).len() >= max_steps as int),
            (r is Ok && final(reader).pos() == old(reader).pos() ==> forall|k: int|
                old(reader).fault_log().len() <= k < final(reader).fault_log().len()
                    ==> is_transient_error(#[trigger] final(reader).fault_log()[k])
                    || final(reader).fault_log()[k] == TransportError::ClosedLocally),
            match r {
                Ok(()) => true,
                Err(e) => e != TransportError::TimedOut && e != TransportError::WouldBlock && e
                    != TransportError::ClosedLocally
                    && final(reader).fault_log().len() > old(reader).fault_log().len()
                    && final(reader).fault_log().last() == e,
            },
    {
        thread_func_impl(reader, &mut self.state, max_steps)
    }
}

/// The status summary for the four facets, as `print_status` renders
/// it.
pub open spec fn status_text(p: StateValue, si: StateValue, mv: StateValue, mx: StateValue) -> Seq<
    char,
> {
    "Current status of receiver:\n\tPower("@ + crate::state::state_value_wire(p)
        + ")\n\tSourceInput("@ + crate::state::state_value_wire(si) + ")\n\tMainVolume("@
        + crate::state::state_value_wire(mv) + ")\n\tMaxVolume("@
        + crate::state::state_value_wire(mx) + ")\n"@
}

/// Render the current status of the receiver: each facet answered from
/// the cache, `Unknown` rendering as an empty value.
pub fn print_status<S: ConnectionStream>(dc: &mut DenonConnection<S>) -> (r: Result<
    String,
    TransportError,
>)
    ensures
        final(dc).cache() == old(dc).cache(),
        match r {
            Ok(s) => s@ == status_text(
                cached_or_unknown(old(dc).cache(), State::Power),
                cached_or_unknown(old(dc).cache(), State::SourceInput),
                cached_or_unknown(old(dc).cache(), State::MainVolume),
                cached_or_unknown(old(dc).cache(), State::MaxVolume),
            ),
            Err(_) => final(dc).transport().write_faults() > old(dc).transport().write_faults(),
        },
{
    let power = match dc.get(State::Power) {
        Ok(v) => v,
        Err(e) => {
            return Err(e);
        },
    };
    let source_input = match dc.get(State::SourceInput) {
        Ok(v) => v,
        Err(e) => {
            return Err(e);
        },
    };
    let main_volume = match dc.get(State::MainVolume) {
        Ok(v) => v,
        Err(e) => {
            return Err(e);
        },
    };
    let max_volume = match dc.get(State::MaxVolume) {
        Ok(v) => v,
        Err(e) => {
            return Err(e);
        },
    };
    let mut s = String::new();
    s.append("Current status of receiver:\n\tPower(");
    s.append(power.value().as_str());
    s.append(")\n\tSourceInput(");
    s.append(source_input.value().as_str());
    s.append(")\n\tMainVolume(");
    s.append(main_volume.value().as_str());
    s.append(")\n\tMaxVolume(");
    s.append(max_volume.value().as_str());
    s.append(")\n");
    Ok(s)
}

} // verus!
