//! Small verified helpers on strings and characters: equality, prefix
//! tests, ASCII-whitespace trimming, and decimal conversion in both
//! directions.  The protocol codec and the roman-numeral renderer are
//! built on these.

use vstd::prelude::*;

verus! {

use vstd::string::StrSliceExecFns;
use vstd::string::StringExecFns;

/// The whitespace characters that [`trim_str`] removes: the ASCII ones
/// that can plausibly surround a protocol token.
pub open spec fn is_ws_char(c: char) -> bool {
    c == ' ' || c == '\t' || c == '\n' || c == '\r'
}

pub open spec fn is_digit_char(c: char) -> bool {
    48 <= c as int <= 57
}

pub open spec fn all_digits(s: Seq<char>) -> bool {
    forall|i: int| 0 <= i < s.len() ==> is_digit_char(#[trigger] s[i])
}

/// The numeric value of a sequence of decimal digit characters,
/// most significant first.
pub open spec fn digits_val(s: Seq<char>) -> int
    decreases s.len(),
{
    if s.len() == 0 {
        0
    } else {
        digits_val(s.drop_last()) * 10 + (s.last() as int - 48)
    }
}

pub open spec fn digit_char(d: int) -> char {
    if d == 0 { '0' }
    else if d == 1 { '1' }
    else if d == 2 { '2' }
    else if d == 3 { '3' }
    else if d == 4 { '4' }
    else if d == 5 { '5' }
    else if d == 6 { '6' }
    else if d == 7 { '7' }
    else if d == 8 { '8' }
    else { '9' }
}

/// The decimal rendering of a non-negative integer, without leading
/// zeros (except for the single digit of zero itself).
pub open spec fn dec_str(n: int) -> Seq<char>
    decreases n,
{
    if n < 10 {
        seq![digit_char(n)]
    } else {
        dec_str(n / 10).push(digit_char(n % 10))
    }
}

/// Relies on std's `String::from_utf8`: it succeeds exactly on valid
/// UTF-8 input and decodes it, and fails on everything else.
#[verifier::external_body]
pub fn bytes_to_string(bytes: Vec<u8>) -> (r: Option<String>)
    ensures
        match r {
            Some(s) => vstd::utf8::valid_utf8(bytes@) && s@ == vstd::utf8::decode_utf8(bytes@),
            None => !vstd::utf8::valid_utf8(bytes@),
        },
{
    match String::from_utf8(bytes) {
        Ok(s) => Some(s),
        Err(_) => None,
    }
}

/// Character-for-character string equality.
pub fn str_eq(a: &str, b: &str) -> (r: bool)
    ensures
        r == (a@ == b@),
{
    let alen: usize = a.unicode_len();
    let blen: usize = b.unicode_len();
    if alen != blen {
        return false;
    }
    let mut i: usize = 0;
    while i < alen
        invariant
            0 <= i <= alen,
            alen == a@.len(),
            alen == b@.len(),
            forall|j: int| 0 <= j < i ==> a@[j] == b@[j],
        decreases alen - i,
    {
        if a.get_char(i) != b.get_char(i) {
            return false;
        }
        i = i + 1;
    }
    proof {
        assert(a@ =~= b@);
    }
    true
}

/// Whether `s` starts with `prefix`, character for character.
pub fn str_starts_with(s: &str, prefix: &str) -> (r: bool)
    ensures
        r == (prefix@.len() <= s@.len() && s@.subrange(0, prefix@.len() as int) == prefix@),
{
    let slen: usize = s.unicode_len();
    let plen: usize = prefix.unicode_len();
    if plen > slen {
        return false;
    }
    let mut i: usize = 0;
    while i < plen
        invariant
            0 <= i <= plen,
            plen <= slen,
            slen == s@.len(),
            plen == prefix@.len(),
            forall|j: int| 0 <= j < i ==> s@[j] == prefix@[j],
        decreases plen - i,
    {
        if s.get_char(i) != prefix.get_char(i) {
            proof {
                assert(s@.subrange(0, prefix@.len() as int)[i as int] != prefix@[i as int]);
            }
            return false;
        }
        i = i + 1;
    }
    proof {
        assert(s@.subrange(0, prefix@.len() as int) =~= prefix@);
    }
    true
}

pub open spec fn trim_front_spec(s: Seq<char>) -> Seq<char>
    decreases s.len(),
{
    if s.len() > 0 && is_ws_char(s[0]) {
        trim_front_spec(s.skip(1))
    } else {
        s
    }
}

pub open spec fn trim_back_spec(s: Seq<char>) -> Seq<char>
    decreases s.len(),
{
    if s.len() > 0 && is_ws_char(s.last()) {
        trim_back_spec(s.drop_last())
    } else {
        s
    }
}

/// `s` with leading and trailing ASCII whitespace removed.
pub open spec fn trim_spec(s: Seq<char>) -> Seq<char> {
    trim_back_spec(trim_front_spec(s))
}

/// A string without leading or trailing whitespace trims to itself.
pub proof fn lemma_trim_of_trimmed(s: Seq<char>)
    requires
        s.len() == 0 || (!is_ws_char(s[0]) && !is_ws_char(s.last())),
    ensures
        trim_spec(s) == s,
{
}

fn is_ws(c: char) -> (r: bool)
    ensures
        r == is_ws_char(c),
{
    c == ' ' || c == '\t' || c == '\n' || c == '\r'
}

/// Remove leading and trailing ASCII whitespace.
pub fn trim_str(s: &str) -> (r: &str)
    ensures
        r@ == trim_spec(s@),
{
    let len: usize = s.unicode_len();
    let mut start: usize = 0;
    proof {
        assert(s@.skip(0) =~= s@);
    }
    while start < len && is_ws(s.get_char(start))
        invariant
            0 <= start <= len,
            len == s@.len(),
            trim_front_spec(s@) == trim_front_spec(s@.skip(start as int)),
        decreases len - start,
    {
        proof {
            assert(s@.skip(start as int)[0] == s@[start as int]);
            assert(s@.skip(start as int).skip(1) =~= s@.skip(start as int + 1));
        }
        start = start + 1;
    }
    proof {
        if start < len {
            assert(s@.skip(start as int)[0] == s@[start as int]);
        } else {
            assert(s@.skip(start as int) =~= Seq::<char>::empty());
        }
        assert(trim_front_spec(s@) == s@.skip(start as int));
    }
    let mut end: usize = len;
    while end > start && is_ws(s.get_char(end - 1))
        invariant
            start <= end <= len,
            len == s@.len(),
            trim_front_spec(s@) == s@.skip(start as int),
            trim_back_spec(s@.skip(start as int)) == trim_back_spec(
                s@.subrange(start as int, end as int),
            ),
        decreases end,
    {
        proof {
            let cur = s@.subrange(start as int, end as int);
            assert(cur.last() == s@[end - 1]);
            assert(cur.drop_last() =~= s@.subrange(start as int, end as int - 1));
        }
        end = end - 1;
    }
    proof {
        let cur = s@.subrange(start as int, end as int);
        if end > start {
            assert(cur.last() == s@[end - 1]);
        }
        assert(trim_back_spec(s@.skip(start as int)) == cur);
        assert(s@.skip(start as int) =~= s@.subrange(start as int, len as int));
    }
    s.substring_char(start, end)
}

fn digit_str(d: u32) -> (r: &'static str)
    requires
        d < 10,
    ensures
        r@ == seq![digit_char(d as int)],
{
    if d == 0 {
        proof { reveal_strlit("0"); }
        "0"
    } else if d == 1 {
        proof { reveal_strlit("1"); }
        "1"
    } else if d == 2 {
        proof { reveal_strlit("2"); }
        "2"
    } else if d == 3 {
        proof { reveal_strlit("3"); }
        "3"
    } else if d == 4 {
        proof { reveal_strlit("4"); }
        "4"
    } else if d == 5 {
        proof { reveal_strlit("5"); }
        "5"
    } else if d == 6 {
        proof { reveal_strlit("6"); }
        "6"
    } else if d == 7 {
        proof { reveal_strlit("7"); }
        "7"
    } else if d == 8 {
        proof { reveal_strlit("8"); }
        "8"
    } else {
        proof { reveal_strlit("9"); }
        "9"
    }
}

/// Render `n` in decimal, without leading zeros.
pub fn decimal_string(n: u32) -> (r: String)
    ensures
        r@ == dec_str(n as int),
    decreases n,
{
    if n < 10 {
        digit_str(n).to_owned()
    } else {
        proof {
            assert(n / 10 < n) by (nonlinear_arith)
                requires n >= 10;
        }
        let mut s = decimal_string(n / 10);
        s.append(digit_str(n % 10));
        s
    }
}

/// A decimal rendering is a non-empty string of digit characters.
pub proof fn lemma_dec_str_digits(n: int)
    requires
        n >= 0,
    ensures
        dec_str(n).len() > 0,
        all_digits(dec_str(n)),
    decreases n,
{
    if n < 10 {
        assert(dec_str(n) =~= seq![digit_char(n)]);
    } else {
        lemma_dec_str_digits(n / 10);
        assert(dec_str(n) == dec_str(n / 10).push(digit_char(n % 10)));
        assert(forall|i: int| 0 <= i < dec_str(n).len() ==> is_digit_char(#[trigger] dec_str(n)[i]))
            by {
            assert(forall|i: int|
                0 <= i < dec_str(n / 10).len() ==> dec_str(n)[i] == #[trigger] dec_str(n / 10)[i]);
            assert(dec_str(n)[dec_str(n).len() - 1] == digit_char(n % 10));
        }
    }
}

/// Parsing inverts rendering: the decimal string of `n` has value `n`.
pub proof fn lemma_dec_str_val(n: int)
    requires
        n >= 0,
    ensures
        digits_val(dec_str(n)) == n,
    decreases n,
{
    if n < 10 {
        let s = dec_str(n);
        assert(s =~= seq![digit_char(n)]);
        assert(s.len() == 1);
        assert(s.last() == digit_char(n));
        assert(s.drop_last() =~= Seq::<char>::empty());
        assert(digits_val(s.drop_last()) == 0);
        assert(digits_val(s) == digits_val(s.drop_last()) * 10 + (s.last() as int - 48));
        assert(digit_char(n) as int == n + 48);
    } else {
        lemma_dec_str_val(n / 10);
        let s = dec_str(n / 10).push(digit_char(n % 10));
        assert(s.drop_last() =~= dec_str(n / 10));
        assert(s.last() == digit_char(n % 10));
        assert(0 <= n % 10 < 10);
        assert(digit_char(n % 10) as int - 48 == n % 10);
        assert(digits_val(s) == (n / 10) * 10 + n % 10);
        assert((n / 10) * 10 + n % 10 == n) by (nonlinear_arith)
            requires n >= 10;
    }
}

proof fn lemma_digits_val_nonneg(s: Seq<char>)
    requires
        all_digits(s),
    ensures
        digits_val(s) >= 0,
    decreases s.len(),
{
    if s.len() > 0 {
        assert(all_digits(s.drop_last())) by {
            assert(forall|i: int| 0 <= i < s.len() - 1 ==> s.drop_last()[i] == s[i]);
        }
        lemma_digits_val_nonneg(s.drop_last());
    }
}

/// Parse a non-empty, all-digit string as a `u32`; `None` on any other
/// input, or when the value does not fit.
pub fn parse_u32_digits(s: &str) -> (r: Option<u32>)
    ensures
        r == (if s@.len() > 0 && all_digits(s@) && digits_val(s@) <= u32::MAX {
            Some(digits_val(s@) as u32)
        } else {
            None::<u32>
        }),
    decreases s@.len(),
{
    let len: usize = s.unicode_len();
    if len == 0 {
        return None;
    }
    let last = s.get_char(len - 1);
    let lastv = last as u32;
    if lastv < 48 || lastv > 57 {
        return None;
    }
    let d: u32 = lastv - 48;
    if len == 1 {
        proof {
            assert(s@.drop_last() =~= Seq::<char>::empty());
            assert(s@.last() == s@[0]);
            assert(is_digit_char(s@[0]));
            assert(forall|i: int| 0 <= i < s@.len() ==> #[trigger] s@[i] == s@[0]);
            assert(digits_val(s@) == digits_val(s@.drop_last()) * 10 + (s@.last() as int - 48));
            assert(digits_val(s@.drop_last()) == 0);
            assert(digits_val(s@) == d);
        }
        return Some(d);
    }
    let front = s.substring_char(0, len - 1);
    proof {
        assert(front@ =~= s@.drop_last());
        assert(s@.last() == s@[len - 1]);
        if all_digits(front@) {
            assert(all_digits(s@)) by {
                assert(forall|i: int| 0 <= i < s@.len() - 1 ==> s@[i] == front@[i]);
            }
            lemma_digits_val_nonneg(front@);
        }
        if all_digits(s@) {
            assert(all_digits(front@)) by {
                assert(forall|i: int| 0 <= i < front@.len() ==> front@[i] == s@[i]);
            }
        }
    }
    match parse_u32_digits(front) {
        None => None,
        Some(v) => {
            // v * 10 + d may exceed u32::MAX; test before computing.
            if v > 429496729 || (v == 429496729 && d > 5) {
                return None;
            }
            Some(v * 10 + d)
        },
    }
}

} // verus!
