//! Percent-encoding of URL paths.
//!
//! A request target arrives percent-encoded: any byte may be written as `%`
//! followed by two hex digits, and bytes outside the unreserved set must be.
//! Decoding is total: a `%` that is not followed by two hex digits is kept
//! as itself.

use vstd::prelude::*;

verus! {

/// Whether percent-encoding keeps `b` as itself: ASCII letters, digits,
/// `-`, `_`, `.` and `~`.
pub open spec fn is_unreserved(b: u8) -> bool {
    (65 <= b && b <= 90) || (97 <= b && b <= 122) || (48 <= b && b <= 57) || b == 45
        || b == 95 || b == 46 || b == 126
}

/// Whether `b` is an ASCII hex digit, either case.
pub open spec fn is_hex_digit(b: u8) -> bool {
    (48 <= b && b <= 57) || (65 <= b && b <= 70) || (97 <= b && b <= 102)
}

/// The value of the hex digit `b`.
pub open spec fn hex_value(b: u8) -> u8
    recommends
        is_hex_digit(b),
{
    if 48 <= b && b <= 57 {
        (b - 48) as u8
    } else if 65 <= b && b <= 70 {
        (b - 65 + 10) as u8
    } else {
        (b - 97 + 10) as u8
    }
}

/// The uppercase hex digit for the value `n`.
pub open spec fn hex_char_upper(n: u8) -> u8
    recommends
        n < 16,
{
    if n < 10 {
        (48 + n) as u8
    } else {
        (65 + n - 10) as u8
    }
}

/// The percent-encoding of `s`: unreserved bytes stand as themselves, every
/// other byte as `%` and two uppercase hex digits.
pub open spec fn encoded(s: Seq<u8>) -> Seq<u8>
    decreases s.len(),
{
    if s.len() == 0 {
        Seq::empty()
    } else {
        (if is_unreserved(s[0]) {
            seq![s[0]]
        } else {
            seq![37u8, hex_char_upper((s[0] / 16) as u8), hex_char_upper((s[0] % 16) as u8)]
        }) + encoded(s.drop_first())
    }
}

/// The percent-decoding of `s`: `%` followed by two hex digits becomes the
/// byte they spell; any other byte, a malformed `%` included, is kept.
pub open spec fn decoded(s: Seq<u8>) -> Seq<u8>
    decreases s.len(),
{
    if s.len() == 0 {
        Seq::empty()
    } else if s[0] == 37u8 && s.len() >= 3 && is_hex_digit(s[1]) && is_hex_digit(s[2]) {
        seq![(hex_value(s[1]) * 16 + hex_value(s[2])) as u8] + decoded(s.skip(3))
    } else {
        seq![s[0]] + decoded(s.skip(1))
    }
}

/// Whether `b` is an ASCII hex digit.
pub fn hex_digit(b: u8) -> (r: bool)
    ensures
        r == is_hex_digit(b),
{
    (48 <= b && b <= 57) || (65 <= b && b <= 70) || (97 <= b && b <= 102)
}

/// The value of the hex digit `b`.
pub fn hex_val(b: u8) -> (r: u8)
    requires
        is_hex_digit(b),
    ensures
        r == hex_value(b),
        r < 16,
{
    if b <= 57 {
        b - 48
    } else if b <= 70 {
        b - 65 + 10
    } else {
        b - 97 + 10
    }
}

/// Percent-decodes `s`.
pub fn percent_decode(s: &Vec<u8>) -> (r: Vec<u8>)
    ensures
        r@ == decoded(s@),
{
    let mut out: Vec<u8> = Vec::new();
    let mut i: usize = 0;
    proof {
        assert(s@.skip(0) =~= s@);
        assert(out@ + decoded(s@) =~= decoded(s@));
    }
    while i < s.len()
        invariant
            i <= s.len(),
            out@ + decoded(s@.skip(i as int)) == decoded(s@),
        decreases s.len() - i,
    {
        let ghost t = s@.skip(i as int);
        if s[i] == 37u8 && s.len() - i > 2 && hex_digit(s[i + 1]) && hex_digit(s[i + 2]) {
            let v = hex_val(s[i + 1]) * 16 + hex_val(s[i + 2]);
            let ghost out0 = out@;
            out.push(v);
            proof {
                assert(t[0] == s@[i as int] && t[1] == s@[i + 1] && t[2] == s@[i + 2]);
                assert(t.skip(3) =~= s@.skip(i + 3));
                assert(decoded(t) == seq![v] + decoded(s@.skip(i + 3)));
                assert(out@ + decoded(s@.skip(i + 3)) =~= out0 + decoded(t));
            }
            i = i + 3;
        } else {
            let b = s[i];
            let ghost out0 = out@;
            out.push(b);
            proof {
                assert(t[0] == s@[i as int]);
                assert(t.skip(1) =~= s@.skip(i + 1));
                if t[0] == 37u8 && t.len() >= 3 {
                    assert(t[1] == s@[i + 1] && t[2] == s@[i + 2]);
                }
                assert(decoded(t) == seq![t[0]] + decoded(s@.skip(i + 1)));
                assert(out@ + decoded(s@.skip(i + 1)) =~= out0 + decoded(t));
            }
            i = i + 1;
        }
    }
    proof {
        assert(s@.skip(s@.len() as int) =~= Seq::<u8>::empty());
        assert(out@ =~= decoded(s@));
    }
    out
}

/// Percent-encodes `s`.
pub fn percent_encode(s: &Vec<u8>) -> (r: Vec<u8>)
    ensures
        r@ == encoded(s@),
{
    let mut out: Vec<u8> = Vec::new();
    let mut i: usize = 0;
    while i < s.len()
        invariant
            i <= s.len(),
            out@ == encoded(s@.take(i as int)),
        decreases s.len() - i,
    {
        let b = s[i];
        proof {
            assert(s@.take(i + 1) =~= s@.take(i as int) + seq![s@[i as int]]);
            lemma_encoded_append(s@.take(i as int), seq![s@[i as int]]);
            lemma_encoded_singleton(s@[i as int]);
        }
        if (65 <= b && b <= 90) || (97 <= b && b <= 122) || (48 <= b && b <= 57) || b
            == 45 || b == 95 || b == 46 || b == 126 {
            out.push(b);
            proof {
                assert(out@ =~= encoded(s@.take(i + 1)));
            }
        } else {
            out.push(37u8);
            out.push(hex_char_of(b / 16));
            out.push(hex_char_of(b % 16));
            proof {
                assert(out@ =~= encoded(s@.take(i + 1)));
            }
        }
        i = i + 1;
    }
    proof {
        assert(s@.take(s@.len() as int) =~= s@);
    }
    out
}

/// The uppercase hex digit for the value `n`.
pub fn hex_char_of(n: u8) -> (r: u8)
    requires
        n < 16,
    ensures
        r == hex_char_upper(n),
{
    if n < 10 {
        48 + n
    } else {
        65 + n - 10
    }
}

/// Encoding distributes over concatenation.
pub proof fn lemma_encoded_append(s: Seq<u8>, t: Seq<u8>)
    ensures
        encoded(s + t) == encoded(s) + encoded(t),
    decreases s.len(),
{
    if s.len() == 0 {
        assert(s + t =~= t);
        assert(encoded(s) + encoded(t) =~= encoded(t));
    } else {
        assert((s + t).len() > 0 && (s + t)[0] == s[0]);
        assert((s + t).drop_first() =~= s.drop_first() + t);
        lemma_encoded_append(s.drop_first(), t);
        assert(encoded(s + t) =~= encoded(s) + encoded(t));
    }
}

/// The encoding of a single byte.
pub proof fn lemma_encoded_singleton(b: u8)
    ensures
        encoded(seq![b]) == if is_unreserved(b) {
            seq![b]
        } else {
            seq![37u8, hex_char_upper((b / 16) as u8), hex_char_upper((b % 16) as u8)]
        },
{
    let s = seq![b];
    assert(s.drop_first() =~= Seq::<u8>::empty());
    assert(encoded(s.drop_first()) =~= Seq::<u8>::empty());
    if is_unreserved(b) {
        assert(encoded(s) =~= seq![b]);
    } else {
        assert(encoded(s) =~= seq![37u8, hex_char_upper((b / 16) as u8), hex_char_upper(
            (b % 16) as u8,
        )]);
    }
}

/// Reading back the hex digit written for `n` gives `n`.
pub proof fn lemma_hex_roundtrip(n: u8)
    requires
        n < 16,
    ensures
        is_hex_digit(hex_char_upper(n)),
        hex_value(hex_char_upper(n)) == n,
{
}

/// Decoding a percent-encoded string gives back the original bytes:
/// `decoded(encoded(s)) == s` for every byte sequence `s`.
pub proof fn lemma_decode_encode_roundtrip(s: Seq<u8>)
    ensures
        decoded(encoded(s)) == s,
    decreases s.len(),
{
    if s.len() == 0 {
        assert(decoded(encoded(s)) =~= s);
    } else {
        let rest = s.drop_first();
        lemma_decode_encode_roundtrip(rest);
        let e = encoded(s);
        if is_unreserved(s[0]) {
            assert(e =~= seq![s[0]] + encoded(rest));
            assert(e[0] == s[0] && s[0] != 37u8);
            assert(e.skip(1) =~= encoded(rest));
            assert(decoded(e) =~= seq![s[0]] + decoded(encoded(rest)));
            assert(decoded(e) =~= s);
        } else {
            let hi = (s[0] / 16) as u8;
            let lo = (s[0] % 16) as u8;
            lemma_hex_roundtrip(hi);
            lemma_hex_roundtrip(lo);
            assert(e =~= seq![37u8, hex_char_upper(hi), hex_char_upper(lo)] + encoded(rest));
            assert(e[0] == 37u8 && e.len() >= 3);
            assert(e[1] == hex_char_upper(hi) && e[2] == hex_char_upper(lo));
            assert(e.skip(3) =~= encoded(rest));
            assert(hex_value(e[1]) * 16 + hex_value(e[2]) == hi * 16 + lo);
            assert(hi * 16 + lo == s[0]) by {
                vstd::arithmetic::div_mod::lemma_fundamental_div_mod(s[0] as int, 16);
            }
            assert(decoded(e) =~= seq![s[0]] + decoded(encoded(rest)));
            assert(decoded(e) =~= s);
        }
    }
}

} // verus!
