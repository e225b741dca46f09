//! Text codec between the process representation (a sequence of characters,
//! held as UTF-8 by `String`) and the host representation (UTF-16 code
//! units). Conversion is exact: every character maps to one code unit, or to
//! a surrogate pair for supplementary characters, and decoding rejects
//! ill-formed surrogate sequences.

use vstd::arithmetic::div_mod::lemma_fundamental_div_mod;
use vstd::prelude::*;
use vstd::string::*;
use vstd::utf8::{char_is_scalar, char_u32_cast, is_scalar};

verus! {

/// The UTF-16 code units encoding a single character.
pub open spec fn wide_of_char(c: char) -> Seq<u16> {
    if (c as u32) < 0x10000 {
        seq![(c as u32) as u16]
    } else {
        seq![
            (0xD800 + ((c as u32) - 0x10000) / 0x400) as u16,
            (0xDC00 + ((c as u32) - 0x10000) % 0x400) as u16,
        ]
    }
}

/// The UTF-16 encoding of a character sequence.
pub open spec fn wide_of(s: Seq<char>) -> Seq<u16>
    decreases s.len(),
{
    if s.len() == 0 {
        Seq::empty()
    } else {
        wide_of_char(s[0]) + wide_of(s.skip(1))
    }
}

pub open spec fn is_high_surrogate(u: u16) -> bool {
    0xD800 <= u < 0xDC00
}

pub open spec fn is_low_surrogate(u: u16) -> bool {
    0xDC00 <= u < 0xE000
}

/// The scalar value encoded by a surrogate pair.
pub open spec fn combined_scalar(hi: u16, lo: u16) -> u32 {
    (0x10000 + (hi - 0xD800) * 0x400 + (lo - 0xDC00)) as u32
}

/// Decoding of a UTF-16 code unit sequence; `None` on ill-formed input
/// (a lone surrogate, or a reversed pair).
pub open spec fn decode_wide(u: Seq<u16>) -> Option<Seq<char>>
    decreases u.len(),
{
    if u.len() == 0 {
        Some(Seq::empty())
    } else if !is_high_surrogate(u[0]) && !is_low_surrogate(u[0]) {
        match decode_wide(u.skip(1)) {
            Some(rest) => Some(seq![(u[0] as u32) as char] + rest),
            None => None,
        }
    } else if u.len() >= 2 && is_high_surrogate(u[0]) && is_low_surrogate(u[1]) {
        match decode_wide(u.skip(2)) {
            Some(rest) => Some(seq![combined_scalar(u[0], u[1]) as char] + rest),
            None => None,
        }
    } else {
        None
    }
}

pub proof fn lemma_wide_of_push(s: Seq<char>, c: char)
    ensures
        wide_of(s.push(c)) == wide_of(s) + wide_of_char(c),
    decreases s.len(),
{
    if s.len() == 0 {
        assert(s.push(c)[0] == c);
        assert(s.push(c).skip(1) =~= Seq::<char>::empty());
        assert(wide_of(s.push(c)) == wide_of_char(c) + wide_of(Seq::<char>::empty()));
        assert(wide_of(s.push(c)) =~= wide_of(s) + wide_of_char(c));
    } else {
        assert(s.push(c).skip(1) =~= s.skip(1).push(c));
        lemma_wide_of_push(s.skip(1), c);
        assert(s.push(c)[0] == s[0]);
        assert(wide_of(s.push(c)) =~= wide_of(s) + wide_of_char(c));
    }
}

/// Every character takes at least one and at most two code units.
pub proof fn lemma_wide_len(s: Seq<char>)
    ensures
        s.len() <= wide_of(s).len() <= 2 * s.len(),
    decreases s.len(),
{
    if s.len() > 0 {
        lemma_wide_len(s.skip(1));
    }
}

/// Decoding distributes over an encoded prefix: whatever follows the exact
/// encoding of `s` decodes on its own, with `s` in front of the result.
pub proof fn lemma_decode_wide_prefix(s: Seq<char>, rest: Seq<u16>)
    ensures
        decode_wide(rest).is_none() ==> decode_wide(wide_of(s) + rest).is_none(),
        decode_wide(rest).is_some() ==> decode_wide(wide_of(s) + rest) == Some(
            s + decode_wide(rest).unwrap(),
        ),
    decreases s.len(),
{
    if s.len() == 0 {
        assert(wide_of(s) + rest =~= rest);
        if decode_wide(rest).is_some() {
            assert(s + decode_wide(rest).unwrap() =~= decode_wide(rest).unwrap());
        }
    } else {
        let c = s[0];
        let v = c as u32;
        char_is_scalar(c);
        char_u32_cast(c, v);
        lemma_decode_wide_prefix(s.skip(1), rest);
        let tailu = wide_of(s.skip(1)) + rest;
        let w = wide_of(s) + rest;
        assert(w =~= wide_of_char(c) + tailu);
        if v < 0x10000 {
            let u0 = v as u16;
            assert(w[0] == u0);
            assert(u0 as u32 == v);
            assert(!is_high_surrogate(u0) && !is_low_surrogate(u0));
            assert(w.skip(1) =~= tailu);
            if decode_wide(rest).is_some() {
                let cs = decode_wide(rest).unwrap();
                assert(decode_wide(w) == Some(seq![c] + (s.skip(1) + cs)));
                assert(seq![c] + (s.skip(1) + cs) =~= s + cs);
            }
        } else {
            let x = (v - 0x10000) as int;
            let q = x / 0x400;
            let r = x % 0x400;
            lemma_fundamental_div_mod(x, 0x400);
            assert(x < 0x100000);
            assert(0x400 * q <= x);
            assert(0 <= q < 0x400);
            assert(0 <= r < 0x400);
            let hi = (0xD800 + q) as u16;
            let lo = (0xDC00 + r) as u16;
            assert(0xD800 + q < 0x10000);
            assert(0xDC00 + r < 0x10000);
            assert(hi == 0xD800 + q);
            assert(lo == 0xDC00 + r);
            assert(is_high_surrogate(hi));
            assert(is_low_surrogate(lo));
            assert(wide_of_char(c) == seq![hi, lo]);
            assert(w[0] == hi);
            assert(w[1] == lo);
            assert(w.len() >= 2);
            assert(w.skip(2) =~= tailu);
            assert(combined_scalar(hi, lo) == 0x10000 + q * 0x400 + r);
            assert(combined_scalar(hi, lo) == v);
            if decode_wide(rest).is_some() {
                let cs = decode_wide(rest).unwrap();
                assert(decode_wide(w) == Some(seq![c] + (s.skip(1) + cs)));
                assert(seq![c] + (s.skip(1) + cs) =~= s + cs);
            }
        }
    }
}

/// Round trip through the host representation: the encoding of a text,
/// followed by one terminator unit, decodes to the text followed by one
/// terminator character.
pub proof fn lemma_wide_terminated_round_trip(s: Seq<char>)
    ensures
        decode_wide(wide_of(s).push(0u16)) == Some(s.push('\0')),
{
    let rest: Seq<u16> = seq![0u16];
    assert(rest.len() == 1);
    assert(rest[0] == 0u16);
    assert(!is_high_surrogate(0u16) && !is_low_surrogate(0u16));
    assert(rest.skip(1) =~= Seq::<u16>::empty());
    assert('\0' as u32 == 0);
    char_u32_cast('\0', 0u32);
    assert(decode_wide(rest.skip(1)) == Some(Seq::<char>::empty()));
    assert(decode_wide(rest) == Some(seq![(rest[0] as u32) as char] + Seq::<char>::empty()));
    assert((rest[0] as u32) as char == '\0');
    assert(seq![(rest[0] as u32) as char] + Seq::<char>::empty() =~= seq!['\0']);
    lemma_decode_wide_prefix(s, rest);
    assert(wide_of(s) + rest =~= wide_of(s).push(0u16));
    assert(s + seq!['\0'] =~= s.push('\0'));
}

/// The decoded text up to (excluding) its first terminator character; the
/// whole text when no terminator occurs.
pub open spec fn spec_trim(s: Seq<char>) -> Seq<char>
    decreases s.len(),
{
    if s.len() == 0 {
        s
    } else if s[0] == '\0' {
        Seq::empty()
    } else {
        seq![s[0]] + spec_trim(s.skip(1))
    }
}

/// Terminator trimming, first half: a terminator at position `k`, with none
/// before it, truncates the text to its first `k` characters.
pub proof fn lemma_trim_at_terminator(s: Seq<char>, k: int)
    requires
        0 <= k < s.len(),
        s[k] == '\0',
        forall|i: int| 0 <= i < k ==> s[i] != '\0',
    ensures
        spec_trim(s) == s.take(k),
    decreases k,
{
    if k == 0 {
        assert(spec_trim(s) =~= s.take(0));
    } else {
        assert forall|i: int| 0 <= i < k - 1 implies s.skip(1)[i] != '\0' by {
            assert(s.skip(1)[i] == s[i + 1]);
        }
        assert(s.skip(1)[k - 1] == s[k]);
        lemma_trim_at_terminator(s.skip(1), k - 1);
        assert(seq![s[0]] + s.skip(1).take(k - 1) =~= s.take(k));
    }
}

/// Terminator trimming, second half: a text without terminator passes
/// through unmodified.
pub proof fn lemma_trim_absent(s: Seq<char>)
    requires
        forall|i: int| 0 <= i < s.len() ==> s[i] != '\0',
    ensures
        spec_trim(s) == s,
    decreases s.len(),
{
    if s.len() > 0 {
        assert forall|i: int| 0 <= i < s.skip(1).len() implies s.skip(1)[i] != '\0' by {
            assert(s.skip(1)[i] == s[i + 1]);
        }
        lemma_trim_absent(s.skip(1));
        assert(seq![s[0]] + s.skip(1) =~= s);
    }
}

/// The trimmed text never contains a terminator character.
pub proof fn lemma_trim_clean(s: Seq<char>)
    ensures
        forall|i: int| 0 <= i < spec_trim(s).len() ==> spec_trim(s)[i] != '\0',
    decreases s.len(),
{
    if s.len() == 0 {
    } else if s[0] == '\0' {
    } else {
        lemma_trim_clean(s.skip(1));
        assert forall|i: int| 0 <= i < spec_trim(s).len() implies spec_trim(s)[i] != '\0' by {
            assert(spec_trim(s) == seq![s[0]] + spec_trim(s.skip(1)));
            if i > 0 {
                assert(spec_trim(s)[i] == spec_trim(s.skip(1))[i - 1]);
            }
        }
    }
}

/// Relies on `char::from_u32`: a `u32` that is a Unicode scalar value
/// converts to the `char` with exactly that value.
#[verifier::external_body]
fn char_from_scalar(v: u32) -> (c: char)
    requires
        is_scalar(v),
    ensures
        c as u32 == v,
{
    char::from_u32(v).unwrap_or('\u{0}')
}

/// Relies on `str`'s `FromIterator<char>`: collecting characters yields the
/// string of exactly those characters.
#[verifier::external_body]
pub(crate) fn string_from_chars(text: &Vec<char>) -> (r: String)
    ensures
        r@ == text@,
{
    text.iter().collect()
}

/// The characters of a string, in order.
pub fn chars_of(text: &str) -> (r: Vec<char>)
    ensures
        r@ == text@,
{
    let n = text.unicode_len();
    let mut r: Vec<char> = Vec::new();
    let mut i: usize = 0;
    while i < n
        invariant
            i <= n,
            n == text@.len(),
            r@ == text@.take(i as int),
        decreases n - i,
    {
        let c = text.get_char(i);
        r.push(c);
        proof {
            assert(text@.take(i as int).push(text@[i as int]) =~= text@.take(i as int + 1));
        }
        i += 1;
    }
    proof {
        assert(text@.take(n as int) =~= text@);
    }
    r
}

/// Conversion pass from process text to host code units (the writing pass
/// of the two-pass protocol; the measuring pass reports the length of this
/// result).
pub fn encode_wide(text: &Vec<char>) -> (r: Vec<u16>)
    ensures
        r@ == wide_of(text@),
{
    let mut r: Vec<u16> = Vec::new();
    let mut i: usize = 0;
    while i < text.len()
        invariant
            i <= text@.len(),
            r@ == wide_of(text@.take(i as int)),
        decreases text@.len() - i,
    {
        let c = text[i];
        let v = c as u32;
        proof {
            char_is_scalar(c);
            lemma_wide_of_push(text@.take(i as int), c);
            assert(text@.take(i as int).push(c) =~= text@.take(i as int + 1));
        }
        if v < 0x10000 {
            r.push(v as u16);
            proof {
                assert(wide_of_char(c) == seq![v as u16]);
            }
        } else {
            proof {
                let x = (v - 0x10000) as int;
                lemma_fundamental_div_mod(x, 0x400);
                assert(0x400 * (x / 0x400) <= x);
                assert(0 <= x / 0x400 < 0x400);
            }
            let hi = (0xD800 + (v - 0x10000) / 0x400) as u16;
            let lo = (0xDC00 + (v - 0x10000) % 0x400) as u16;
            r.push(hi);
            r.push(lo);
            proof {
                assert(wide_of_char(c) == seq![hi, lo]);
            }
        }
        proof {
            assert(r@ =~= wide_of(text@.take(i as int)) + wide_of_char(c));
        }
        i += 1;
    }
    proof {
        assert(text@.take(text@.len() as int) =~= text@);
    }
    r
}

/// Decoding pass from host code units to process text; `None` exactly when
/// the unit sequence is ill-formed.
pub fn decode_wide_units(units: &Vec<u16>) -> (r: Option<Vec<char>>)
    ensures
        decode_wide(units@).is_some() ==> r.is_some() && r.unwrap()@ == decode_wide(
            units@,
        ).unwrap(),
        decode_wide(units@).is_none() ==> r.is_none(),
{
    let mut acc: Vec<char> = Vec::new();
    let mut i: usize = 0;
    proof {
        assert(units@.skip(0) =~= units@);
        if decode_wide(units@).is_some() {
            assert(Seq::<char>::empty() + decode_wide(units@).unwrap() =~= decode_wide(
                units@,
            ).unwrap());
        }
    }
    while i < units.len()
        invariant
            i <= units@.len(),
            decode_wide(units@).is_some() <==> decode_wide(units@.skip(i as int)).is_some(),
            decode_wide(units@).is_some() ==> decode_wide(units@).unwrap() == acc@ + decode_wide(
                units@.skip(i as int),
            ).unwrap(),
        decreases units@.len() - i,
    {
        let ghost tail = units@.skip(i as int);
        let u0 = units[i];
        proof {
            assert(tail[0] == units@[i as int]);
            assert(tail.skip(1) =~= units@.skip(i as int + 1));
        }
        if !(0xD800 <= u0 && u0 < 0xE000) {
            proof {
                assert(is_scalar(u0 as u32));
            }
            let c = char_from_scalar(u0 as u32);
            proof {
                char_u32_cast(c, u0 as u32);
            }
            let ghost acc_old = acc@;
            acc.push(c);
            proof {
                if decode_wide(units@).is_some() {
                    let cs2 = decode_wide(tail.skip(1)).unwrap();
                    assert(decode_wide(tail).unwrap() == seq![c] + cs2);
                    assert(acc_old + (seq![c] + cs2) =~= acc@ + cs2);
                }
            }
            i += 1;
        } else if u0 < 0xDC00 {
            if i + 1 < units.len() {
                let u1 = units[i + 1];
                proof {
                    assert(tail[1] == units@[i as int + 1]);
                }
                if 0xDC00 <= u1 && u1 < 0xE000 {
                    let v = 0x10000 + ((u0 - 0xD800) as u32) * 0x400 + ((u1 - 0xDC00) as u32);
                    proof {
                        assert(tail.skip(2) =~= units@.skip(i as int + 2));
                        assert(v == combined_scalar(u0, u1));
                        assert(is_scalar(v));
                    }
                    let c = char_from_scalar(v);
                    proof {
                        char_u32_cast(c, v);
                    }
                    let ghost acc_old = acc@;
                    acc.push(c);
                    proof {
                        if decode_wide(units@).is_some() {
                            let cs2 = decode_wide(tail.skip(2)).unwrap();
                            assert(decode_wide(tail).unwrap() == seq![c] + cs2);
                            assert(acc_old + (seq![c] + cs2) =~= acc@ + cs2);
                        }
                    }
                    i += 2;
                } else {
                    proof {
                        assert(decode_wide(tail).is_none());
                    }
                    return None;
                }
            } else {
                proof {
                    assert(tail.len() == 1);
                    assert(decode_wide(tail).is_none());
                }
                return None;
            }
        } else {
            proof {
                assert(decode_wide(tail).is_none());
            }
            return None;
        }
    }
    proof {
        assert(units@.skip(units@.len() as int) =~= Seq::<u16>::empty());
        assert(acc@ + Seq::<char>::empty() =~= acc@);
    }
    Some(acc)
}

/// Defensive trim of the read path: cut the decoded text at its first
/// terminator character; leave it unchanged when none occurs.
pub fn trim_terminator(text: &mut Vec<char>)
    ensures
        final(text)@ == spec_trim(old(text)@),
{
    let mut i: usize = 0;
    while i < text.len()
        invariant
            i <= text@.len(),
            forall|j: int| 0 <= j < i ==> text@[j] != '\0',
            text@ == old(text)@,
        decreases text@.len() - i,
    {
        if text[i] == '\0' {
            proof {
                lemma_trim_at_terminator(text@, i as int);
            }
            text.truncate(i);
            return ;
        }
        i += 1;
    }
    proof {
        lemma_trim_absent(text@);
    }
}

} // verus!
