//! Small helpers on strings: views of string lists, decimal numerals and
//! truncation for display.

use vstd::prelude::*;
use vstd::string::StringSliceAdditionalSpecFns;
use vstd::utf8::{encode_utf8, is_ascii_chars, is_ascii_chars_encode_utf8, is_char_boundary};

verus! {

/// The views of a sequence of strings.
pub open spec fn views(s: Seq<String>) -> Seq<Seq<char>> {
    s.map_values(|x: String| x@)
}

/// The decimal digit for `d`, which is below ten.
pub open spec fn digit_char(d: nat) -> char {
    seq!['0', '1', '2', '3', '4', '5', '6', '7', '8', '9'][d as int]
}

/// The decimal numeral of `n`, without leading zeros.
pub open spec fn decimal(n: nat) -> Seq<char>
    decreases n,
{
    if n < 10 {
        seq![digit_char(n)]
    } else {
        decimal(n / 10).push(digit_char(n % 10))
    }
}

/// The bytes `b` where there are at most `max_len` of them; else their first
/// `max_len - 3` followed by the three bytes of `...`.
pub open spec fn truncated_bytes(b: Seq<u8>, max_len: nat) -> Seq<u8> {
    if b.len() <= max_len {
        b
    } else {
        b.subrange(0, max_len - 3) + seq![0x2eu8, 0x2eu8, 0x2eu8]
    }
}

/// The UTF-8 encoding of two character sequences one after the other is
/// the encoding of the first followed by that of the second.
pub proof fn encode_utf8_concat(a: Seq<char>, b: Seq<char>)
    ensures
        encode_utf8(a + b) == encode_utf8(a) + encode_utf8(b),
    decreases a.len(),
{
    if a.len() == 0 {
        assert(a + b =~= b);
        assert(encode_utf8(a) =~= Seq::<u8>::empty());
        assert(encode_utf8(a) + encode_utf8(b) =~= encode_utf8(b));
    } else {
        assert((a + b)[0] == a[0]);
        assert((a + b).drop_first() =~= a.drop_first() + b);
        encode_utf8_concat(a.drop_first(), b);
        assert(encode_utf8(a + b) =~= encode_utf8(a) + encode_utf8(b));
    }
}

/// Truncation leaves alone what it has truncated once: its result is never
/// longer than `max_len` bytes.
pub proof fn truncation_is_idempotent(b: Seq<u8>, max_len: nat)
    requires
        b.len() <= max_len || max_len >= 3,
    ensures
        truncated_bytes(b, max_len).len() <= max_len,
        truncated_bytes(truncated_bytes(b, max_len), max_len) == truncated_bytes(b, max_len),
{
}

fn digit_str(d: u64) -> (r: &'static str)
    requires
        d < 10,
    ensures
        r@ == seq![digit_char(d as nat)],
{
    if d == 0 {
        proof { reveal_strlit("0"); }
        assert("0"@ =~= seq!['0']);
        "0"
    } else if d == 1 {
        proof { reveal_strlit("1"); }
        assert("1"@ =~= seq!['1']);
        "1"
    } else if d == 2 {
        proof { reveal_strlit("2"); }
        assert("2"@ =~= seq!['2']);
        "2"
    } else if d == 3 {
        proof { reveal_strlit("3"); }
        assert("3"@ =~= seq!['3']);
        "3"
    } else if d == 4 {
        proof { reveal_strlit("4"); }
        assert("4"@ =~= seq!['4']);
        "4"
    } else if d == 5 {
        proof { reveal_strlit("5"); }
        assert("5"@ =~= seq!['5']);
        "5"
    } else if d == 6 {
        proof { reveal_strlit("6"); }
        assert("6"@ =~= seq!['6']);
        "6"
    } else if d == 7 {
        proof { reveal_strlit("7"); }
        assert("7"@ =~= seq!['7']);
        "7"
    } else if d == 8 {
        proof { reveal_strlit("8"); }
        assert("8"@ =~= seq!['8']);
        "8"
    } else {
        proof { reveal_strlit("9"); }
        assert("9"@ =~= seq!['9']);
        "9"
    }
}

/// The decimal numeral of `n`.
pub fn decimal_string(n: u64) -> (r: String)
    ensures
        r@ == decimal(n as nat),
    decreases n,
{
    if n < 10 {
        String::from_str(digit_str(n))
    } else {
        let mut s = decimal_string(n / 10);
        s.append(digit_str(n % 10));
        s
    }
}

/// `s` where it has at most `max_len` bytes; else its first `max_len - 3`
/// bytes followed by `...`, so that the result has exactly `max_len` bytes.
/// The cut must fall on a character boundary.
pub fn truncate_string(s: &str, max_len: usize) -> (r: String)
    requires
        s.spec_bytes().len() <= max_len || (max_len >= 3 && is_char_boundary(s.spec_bytes(), max_len - 3)),
    ensures
        encode_utf8(r@) == truncated_bytes(s.spec_bytes(), max_len as nat),
        s.spec_bytes().len() <= max_len ==> r@ == s@,
        encode_utf8(r@).len() <= max_len,
{
    if s.as_bytes().len() <= max_len {
        String::from_str(s)
    } else {
        let (head, _) = s.split_at(max_len - 3);
        let r = String::from_str(head).concat("...");
        proof {
            reveal_strlit("...");
            let dots = "..."@;
            assert(is_ascii_chars(dots));
            is_ascii_chars_encode_utf8(dots);
            assert(encode_utf8(dots) =~= seq![0x2eu8, 0x2eu8, 0x2eu8]);
            encode_utf8_concat(head@, dots);
            assert(encode_utf8(head@) == s.spec_bytes().subrange(0, max_len - 3));
            assert(encode_utf8(r@) == s.spec_bytes().subrange(0, max_len - 3) + seq![0x2eu8, 0x2eu8, 0x2eu8]);
        }
        r
    }
}

} // verus!
