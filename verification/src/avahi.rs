//! Picking the receiver's hostname out of the output of an mDNS browse
//! tool: the parsing half of service discovery.  Running the tool and
//! opening the connection stay outside the library; this module decides,
//! for given output text, which hostname it names.
//!
//! The expected shape is one record per line, fields separated by `;`:
//! a line that starts with `=` is a resolved record, and its seventh
//! field is the hostname.

use vstd::prelude::*;

verus! {

use vstd::string::StrSliceExecFns;
use vstd::string::StringExecFns;

/// Index of the first `sep` in `s`, or `-1` if there is none.
pub open spec fn sep_index(s: Seq<char>, sep: char) -> int
    decreases s.len(),
{
    if s.len() == 0 {
        -1
    } else if s[0] == sep {
        0
    } else {
        let r = sep_index(s.skip(1), sep);
        if r < 0 {
            -1
        } else {
            r + 1
        }
    }
}

/// `sep_index` finds the first separator, if any.
pub proof fn lemma_sep_index(s: Seq<char>, sep: char)
    ensures
        sep_index(s, sep) == -1 || 0 <= sep_index(s, sep) < s.len(),
        sep_index(s, sep) >= 0 ==> s[sep_index(s, sep)] == sep,
        forall|j: int|
            0 <= j < s.len() && (sep_index(s, sep) == -1 || j < sep_index(s, sep)) ==> s[j] != sep,
    decreases s.len(),
{
    if s.len() > 0 && s[0] != sep {
        lemma_sep_index(s.skip(1), sep);
        assert forall|j: int|
            0 <= j < s.len() && (sep_index(s, sep) == -1 || j < sep_index(s, sep)) implies s[j]
            != sep by {
            if j >= 1 {
                assert(s[j] == s.skip(1)[j - 1]);
            }
        };
    }
}

/// Where the first separator is known by its properties, `sep_index`
/// returns it.
pub proof fn lemma_sep_index_at(s: Seq<char>, sep: char, i: int)
    requires
        0 <= i < s.len(),
        s[i] == sep,
        forall|j: int| 0 <= j < i ==> s[j] != sep,
    ensures
        sep_index(s, sep) == i,
    decreases i,
{
    if i > 0 {
        assert(forall|j: int| 0 <= j < i - 1 ==> #[trigger] s.skip(1)[j] == s[j + 1]);
        assert(s.skip(1)[i - 1] == s[i]);
        lemma_sep_index_at(s.skip(1), sep, i - 1);
    }
}

/// `s` split at every `sep`; the separators belong to no piece, and a
/// missing trailing separator still ends the last piece, so there is
/// always one piece more than there are separators.
pub open spec fn split_on(s: Seq<char>, sep: char) -> Seq<Seq<char>>
    decreases s.len(),
    via split_on_decreases
{
    if sep_index(s, sep) < 0 {
        seq![s]
    } else {
        seq![s.take(sep_index(s, sep))] + split_on(s.skip(sep_index(s, sep) + 1), sep)
    }
}

#[via_fn]
proof fn split_on_decreases(s: Seq<char>, sep: char) {
    lemma_sep_index(s, sep);
}

/// Whether `n` occurs in `s` as a contiguous run.
pub open spec fn contains_seq(s: Seq<char>, n: Seq<char>) -> bool {
    exists|i: int|
        0 <= i <= s.len() - n.len() && #[trigger] s.subrange(i, i + n.len() as int) == n
}

/// Find the first `sep` at or after `from`.
fn find_char_from(s: &str, sep: char, from: usize) -> (r: Option<usize>)
    requires
        from <= s@.len(),
    ensures
        match r {
            Some(i) => {
                &&& from <= i < s@.len()
                &&& s@[i as int] == sep
                &&& forall|j: int| from <= j < i ==> s@[j] != sep
            },
            None => forall|j: int| from <= j < s@.len() ==> s@[j] != sep,
        },
{
    let len: usize = s.unicode_len();
    let mut i: usize = from;
    while i < len
        invariant
            from <= i <= len,
            len == s@.len(),
            forall|j: int| from <= j < i ==> s@[j] != sep,
        decreases len - i,
    {
        if s.get_char(i) == sep {
            return Some(i);
        }
        i = i + 1;
    }
    None
}

/// Split `s` at every `sep`.
pub fn split_char(s: &str, sep: char) -> (r: Vec<String>)
    ensures
        r.deep_view() == split_on(s@, sep),
{
    let len: usize = s.unicode_len();
    let mut pieces: Vec<String> = Vec::new();
    let mut start: usize = 0;
    proof {
        assert(s@.skip(0) =~= s@);
        assert(pieces.deep_view() =~~= Seq::<Seq<char>>::empty());
        assert(Seq::<Seq<char>>::empty() + split_on(s@, sep) =~~= split_on(s@, sep));
    }
    loop
        invariant
            start <= len,
            len == s@.len(),
            split_on(s@, sep) == pieces.deep_view() + split_on(s@.skip(start as int), sep),
        decreases len - start,
    {
        let ghost rest = s@.skip(start as int);
        let ghost pieces_before = pieces.deep_view();
        match find_char_from(s, sep, start) {
            Some(i) => {
                let piece = s.substring_char(start, i).to_owned();
                proof {
                    assert(forall|j: int| 0 <= j < i - start ==> #[trigger] rest[j] == s@[j + start]);
                    assert(rest[i - start] == s@[i as int]);
                    lemma_sep_index_at(rest, sep, i - start);
                    assert(rest.take(i - start) =~= s@.subrange(start as int, i as int));
                    assert(rest.skip(i - start + 1) =~= s@.skip(i as int + 1));
                    assert(split_on(rest, sep) == seq![rest.take(i - start)] + split_on(
                        s@.skip(i as int + 1),
                        sep,
                    ));
                }
                pieces.push(piece);
                proof {
                    assert(pieces.deep_view() =~~= pieces_before.push(
                        s@.subrange(start as int, i as int),
                    ));
                    assert(pieces_before.push(s@.subrange(start as int, i as int)) + split_on(
                        s@.skip(i as int + 1),
                        sep,
                    ) =~~= pieces_before + (seq![s@.subrange(start as int, i as int)] + split_on(
                        s@.skip(i as int + 1),
                        sep,
                    )));
                }
                start = i + 1;
            },
            None => {
                let piece = s.substring_char(start, len).to_owned();
                proof {
                    lemma_sep_index(rest, sep);
                    assert(sep_index(rest, sep) == -1) by {
                        if sep_index(rest, sep) >= 0 {
                            assert(rest[sep_index(rest, sep)] == s@[sep_index(rest, sep) + start]);
                        }
                    }
                    assert(split_on(rest, sep) == seq![rest]);
                    assert(rest =~= s@.subrange(start as int, len as int));
                }
                pieces.push(piece);
                proof {
                    assert(pieces.deep_view() =~~= pieces_before.push(rest));
                    assert(pieces_before.push(rest) =~~= pieces_before + seq![rest]);
                }
                return pieces;
            },
        }
    }
}

/// Whether `needle` occurs in `s`.
pub fn str_contains(s: &str, needle: &str) -> (r: bool)
    ensures
        r == contains_seq(s@, needle@),
{
    let slen: usize = s.unicode_len();
    let nlen: usize = needle.unicode_len();
    if nlen > slen {
        return false;
    }
    if nlen == 0 {
        proof {
            assert(s@.subrange(0, 0 + needle@.len() as int) =~= needle@);
            assert(contains_seq(s@, needle@));
        }
        return true;
    }
    let mut i: usize = 0;
    while i <= slen - nlen
        invariant
            0 <= i <= slen - nlen + 1,
            1 <= nlen <= slen,
            slen == s@.len(),
            nlen == needle@.len(),
            forall|j: int|
                0 <= j < i ==> #[trigger] s@.subrange(j, j + needle@.len() as int) != needle@,
        decreases slen + 1 - nlen - i,
    {
        let mut k: usize = 0;
        let mut hit = true;
        while k < nlen
            invariant
                0 <= k <= nlen,
                i + nlen <= slen,
                slen == s@.len(),
                nlen == needle@.len(),
                hit ==> forall|j: int| 0 <= j < k ==> s@[i + j] == needle@[j],
                !hit ==> s@.subrange(i as int, i + needle@.len() as int) != needle@,
            decreases nlen - k,
        {
            if s.get_char(i + k) != needle.get_char(k) {
                proof {
                    assert(s@.subrange(i as int, i + needle@.len() as int)[k as int] != needle@[
                        k as int]);
                }
                hit = false;
                k = nlen;
            } else {
                k = k + 1;
            }
        }
        if hit {
            proof {
                assert(s@.subrange(i as int, i + needle@.len() as int) =~= needle@);
            }
            return true;
        }
        i = i + 1;
    }
    proof {
        assert forall|j: int| 0 <= j <= s@.len() - needle@.len() implies #[trigger] s@.subrange(
            j,
            j + needle@.len() as int,
        ) != needle@ by {
        };
    }
    false
}

/// What one browse line names: for a resolved record (`=`) that
/// mentions `DENON` and has at least seven fields, the seventh field,
/// the hostname.
pub open spec fn browse_host(line: Seq<char>) -> Option<Seq<char>> {
    if line.len() > 0 && line[0] == '=' && contains_seq(line, "DENON"@) && split_on(
        line,
        ';',
    ).len() > 6 {
        Some(split_on(line, ';')[6])
    } else {
        None
    }
}

/// The hostname named by the first matching line, if any.
pub open spec fn first_browse_host(lines: Seq<Seq<char>>) -> Option<Seq<char>>
    decreases lines.len(),
{
    if lines.len() == 0 {
        None
    } else {
        match browse_host(lines[0]) {
            Some(h) => Some(h),
            None => first_browse_host(lines.skip(1)),
        }
    }
}

/// The receiver hostname named by mDNS browse output, if any: from the
/// first line that is a resolved `DENON` record with a hostname field.
pub fn receiver_in_browse_output(output: &str) -> (r: Option<String>)
    ensures
        match r {
            Some(h) => first_browse_host(split_on(output@, '\n')) == Some(h@),
            None => first_browse_host(split_on(output@, '\n')) is None,
        },
{
    let lines = split_char(output, '\n');
    let ghost dv = lines.deep_view();
    let mut i: usize = 0;
    proof {
        assert(dv.skip(0) =~~= dv);
    }
    while i < lines.len()
        invariant
            0 <= i <= lines@.len(),
            dv == lines.deep_view(),
            dv == split_on(output@, '\n'),
            dv.len() == lines@.len(),
            first_browse_host(dv) == first_browse_host(dv.skip(i as int)),
        decreases lines@.len() - i,
    {
        proof {
            assert(dv.skip(i as int)[0] == dv[i as int]);
            assert(dv[i as int] == lines@[i as int]@);
            assert(dv.skip(i as int).skip(1) =~~= dv.skip(i as int + 1));
        }
        let line = &lines[i];
        let line_len: usize = line.as_str().unicode_len();
        if line_len > 0 && line.as_str().get_char(0) == '=' && str_contains(
            line.as_str(),
            "DENON",
        ) {
            let fields = split_char(line.as_str(), ';');
            if fields.len() > 6 {
                let host = fields[6].as_str().to_owned();
                proof {
                    assert(fields.deep_view()[6] == fields@[6]@);
                    assert(browse_host(dv[i as int]) == Some(host@));
                }
                return Some(host);
            }
            proof {
                assert(browse_host(dv[i as int]) is None);
            }
        } else {
            proof {
                assert(browse_host(dv[i as int]) is None);
            }
        }
        i = i + 1;
    }
    proof {
        assert(dv.skip(i as int) =~~= Seq::<Seq<char>>::empty());
    }
    None
}

} // verus!
