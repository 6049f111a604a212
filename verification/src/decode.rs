//! Decoding of the feed's textual wire values: token addresses and balances.
//!
//! A wire value is a run of hexadecimal digits behind `0x`, wrapped as
//! `Bytes(0x..)`, with white space allowed around it. An address may also
//! come bare, as `0x..`; a balance may not. Anything else is refused with an
//! error; no input is read as zero by default.

use crate::wide::{wide_limit, wide_value, word, Wide};
use vstd::arithmetic::div_mod::lemma_fundamental_div_mod_converse;
use vstd::prelude::*;
use vstd::string::*;

verus! {

/// Why a wire value could not be decoded.
#[derive(Clone, Copy, Debug, PartialEq, Eq, Structural)]
pub enum DecodeError {
    /// The text is not a hexadecimal wire value.
    Malformed,
    /// A balance that does not fit in the width asked for.
    OutOfRange,
}

/// The characters with the Unicode property `White_Space`.
pub open spec fn is_white_space(c: char) -> bool {
    let n = c as u32;
    ||| 0x09 <= n <= 0x0d
    ||| n == 0x20
    ||| n == 0x85
    ||| n == 0xa0
    ||| n == 0x1680
    ||| 0x2000 <= n <= 0x200a
    ||| n == 0x2028
    ||| n == 0x2029
    ||| n == 0x202f
    ||| n == 0x205f
    ||| n == 0x3000
}

/// An ASCII hexadecimal digit, in either case.
pub open spec fn is_hex_digit(b: u8) -> bool {
    (0x30 <= b && b <= 0x39) || (0x61 <= b && b <= 0x66) || (0x41 <= b && b <= 0x46)
}

/// The value of a hexadecimal digit, and zero for any other byte.
pub open spec fn hex_digit_value(b: u8) -> nat {
    if 0x30 <= b && b <= 0x39 {
        (b - 0x30) as nat
    } else if 0x61 <= b && b <= 0x66 {
        (b - 0x61 + 10) as nat
    } else if 0x41 <= b && b <= 0x46 {
        (b - 0x41 + 10) as nat
    } else {
        0
    }
}

/// The lower-case form of an ASCII hexadecimal digit.
pub open spec fn lower_hex(b: u8) -> u8 {
    if 0x41 <= b && b <= 0x46 {
        (b + 0x20) as u8
    } else {
        b
    }
}

/// The first position at or after `i` that holds no white space.
pub open spec fn skip_leading(s: Seq<char>, i: int) -> int
    decreases s.len() - i,
{
    if 0 <= i < s.len() && is_white_space(s[i]) {
        skip_leading(s, i + 1)
    } else {
        i
    }
}

/// The end of the text before `j` once trailing white space is dropped, never
/// below `lo`.
pub open spec fn skip_trailing(s: Seq<char>, lo: int, j: int) -> int
    decreases j,
{
    if 0 <= lo < j <= s.len() && is_white_space(s[j - 1]) {
        skip_trailing(s, lo, j - 1)
    } else {
        j
    }
}

/// The text without the white space around it.
pub open spec fn trimmed(s: Seq<char>) -> Seq<char> {
    let lo = skip_leading(s, 0);
    s.subrange(lo, skip_trailing(s, lo, s.len() as int))
}

/// The bytes of the text once the white space around it is dropped.
pub open spec fn trimmed_bytes(text: Seq<char>) -> Seq<u8> {
    vstd::utf8::encode_utf8(trimmed(text))
}

/// The bytes of `Bytes(`.
pub open spec fn wrapper_open() -> Seq<u8> {
    seq![0x42u8, 0x79u8, 0x74u8, 0x65u8, 0x73u8, 0x28u8]
}

/// Whether the text has the form `Bytes(..)`.
pub open spec fn is_wrapped(t: Seq<u8>) -> bool {
    t.len() >= 7 && t.subrange(0, 6) == wrapper_open() && t[t.len() - 1] == 0x29u8
}

/// The text inside `Bytes(..)`, or the text itself where it is not wrapped.
pub open spec fn unwrapped(t: Seq<u8>) -> Seq<u8> {
    if is_wrapped(t) {
        t.subrange(6, t.len() - 1)
    } else {
        t
    }
}

/// Whether the text is `0x` followed by hexadecimal digits only.
pub open spec fn is_hex_literal(u: Seq<u8>) -> bool {
    &&& u.len() >= 2
    &&& u[0] == 0x30u8
    &&& u[1] == 0x78u8
    &&& forall|i: int| 2 <= i < u.len() ==> is_hex_digit(#[trigger] u[i])
}

/// The hexadecimal digits of a wire value, if the trimmed text is one. A bare
/// literal counts only where `bare_allowed` says so.
pub open spec fn hex_payload(t: Seq<u8>, bare_allowed: bool) -> Option<Seq<u8>> {
    let u = unwrapped(t);
    if (bare_allowed || is_wrapped(t)) && is_hex_literal(u) {
        Some(u.subrange(2, u.len() as int))
    } else {
        None
    }
}

/// The number that a run of hexadecimal digits writes, most significant first.
pub open spec fn hex_value(d: Seq<u8>) -> nat
    decreases d.len(),
{
    if d.len() == 0 {
        0
    } else {
        hex_value(d.drop_last()) * 16 + hex_digit_value(d.last())
    }
}

/// The canonical text of an address: `0x` and its digits in lower case.
pub open spec fn address_text(d: Seq<u8>) -> Seq<char> {
    seq!['0', 'x'] + Seq::new(d.len(), |i: int| lower_hex(d[i]) as char)
}

/// The address that a wire text stands for, or why it stands for none. The
/// text may be wrapped or bare.
pub open spec fn decoded_address(text: Seq<char>) -> Result<Seq<char>, DecodeError> {
    match hex_payload(trimmed_bytes(text), true) {
        None => Err(DecodeError::Malformed),
        Some(d) => Ok(address_text(d)),
    }
}

/// The balance of up to 256 bits that a wire text stands for, or why it
/// stands for none. The text must be wrapped.
pub open spec fn decoded_wide(text: Seq<char>) -> Result<Wide, DecodeError> {
    match hex_payload(trimmed_bytes(text), false) {
        None => Err(DecodeError::Malformed),
        Some(d) => if hex_value(d) >= wide_limit() {
            Err(DecodeError::OutOfRange)
        } else {
            Ok(Wide { hi: (hex_value(d) / word()) as u128, lo: (hex_value(d) % word()) as u128 })
        },
    }
}

/// The balance of up to 128 bits that a wire text stands for, or why it
/// stands for none. The text must be wrapped.
pub open spec fn decoded_amount(text: Seq<char>) -> Result<u128, DecodeError> {
    match hex_payload(trimmed_bytes(text), false) {
        None => Err(DecodeError::Malformed),
        Some(d) => if hex_value(d) > u128::MAX {
            Err(DecodeError::OutOfRange)
        } else {
            Ok(hex_value(d) as u128)
        },
    }
}

/// Drops the white space around a text through `str::trim` of std, which
/// returns the text without its leading and trailing characters of the
/// Unicode property `White_Space`.
#[verifier::external_body]
fn trim_text(s: &str) -> (r: &str)
    ensures
        r@ == trimmed(s@),
{
    s.trim()
}

fn digit_value(b: u8) -> (r: Option<u8>)
    ensures
        r is Some == is_hex_digit(b),
        r is Some ==> r.unwrap() == hex_digit_value(b) && r.unwrap() < 16,
{
    if 0x30 <= b && b <= 0x39 {
        Some(b - 0x30)
    } else if 0x61 <= b && b <= 0x66 {
        Some(b - 0x61 + 10)
    } else if 0x41 <= b && b <= 0x46 {
        Some(b - 0x41 + 10)
    } else {
        None
    }
}

/// Finds the digits of a wire value: the bounds of the run inside `b`.
fn find_payload(b: &[u8], bare_allowed: bool) -> (r: Option<(usize, usize)>)
    ensures
        match r {
            Some((lo, hi)) => {
                &&& lo <= hi <= b@.len()
                &&& hex_payload(b@, bare_allowed) == Some(b@.subrange(lo as int, hi as int))
                &&& forall|k: int| lo <= k < hi ==> is_hex_digit(#[trigger] b@[k])
            },
            None => hex_payload(b@, bare_allowed) is None,
        },
{
    let n: usize = b.len();
    let ghost t = b@;
    let mut wrapped: bool = false;
    if n >= 7 && b[0] == 0x42 && b[1] == 0x79 && b[2] == 0x74 && b[3] == 0x65 && b[4] == 0x73
        && b[5] == 0x28 && b[n - 1] == 0x29 {
        wrapped = true;
    }
    proof {
        if wrapped {
            assert(t.subrange(0, 6) =~= wrapper_open());
        } else if t.len() >= 7 && t.subrange(0, 6) == wrapper_open() {
            assert(t.subrange(0, 6)[0] == 0x42u8);
            assert(t.subrange(0, 6)[1] == 0x79u8);
            assert(t.subrange(0, 6)[2] == 0x74u8);
            assert(t.subrange(0, 6)[3] == 0x65u8);
            assert(t.subrange(0, 6)[4] == 0x73u8);
            assert(t.subrange(0, 6)[5] == 0x28u8);
        }
        assert(wrapped == is_wrapped(t));
    }
    if !wrapped && !bare_allowed {
        return None;
    }
    let start: usize = if wrapped { 6 } else { 0 };
    let end: usize = if wrapped { n - 1 } else { n };
    let ghost u = b@.subrange(start as int, end as int);
    assert(u =~= unwrapped(t));
    if end - start < 2 || b[start] != 0x30 || b[start + 1] != 0x78 {
        return None;
    }
    let mut i: usize = start + 2;
    while i < end
        invariant
            start + 2 <= i <= end <= n,
            n == b@.len(),
            u == b@.subrange(start as int, end as int),
            u == unwrapped(b@),
            forall|k: int| 2 <= k < i - start ==> is_hex_digit(#[trigger] u[k]),
            forall|k: int| start + 2 <= k < i ==> is_hex_digit(#[trigger] b@[k]),
        decreases end - i,
    {
        if digit_value(b[i]).is_none() {
            assert(u[i - start] == b@[i as int]);
            assert(!is_hex_literal(u));
            return None;
        }
        i += 1;
    }
    assert(u.subrange(2, u.len() as int) =~= b@.subrange(start + 2, end as int));
    Some((start + 2, end))
}

/// Appends one character to a string through `String::push` of std, which
/// adds the character at the end and leaves the rest as it was.
#[verifier::external_body]
fn push_char(s: &mut String, c: char)
    ensures
        final(s)@ == old(s)@.push(c),
{
    s.push(c);
}

fn lower_digit(b: u8) -> (r: u8)
    ensures
        r == lower_hex(b),
{
    if 0x41 <= b && b <= 0x46 {
        b + 0x20
    } else {
        b
    }
}

/// A lower-case hexadecimal digit.
pub open spec fn is_lower_hex_char(c: char) -> bool {
    ('0' <= c && c <= '9') || ('a' <= c && c <= 'f')
}

/// A decoded address is canonical: `0x`, then one lower-case hexadecimal
/// digit for each digit of the wire text, and nothing else.
pub proof fn lemma_address_is_canonical(text: Seq<char>)
    requires
        decoded_address(text) is Ok,
    ensures
        ({
            let a = decoded_address(text).unwrap();
            let d = hex_payload(trimmed_bytes(text), true).unwrap();
            &&& a.len() == d.len() + 2
            &&& a[0] == '0'
            &&& a[1] == 'x'
            &&& forall|i: int| 2 <= i < a.len() ==> is_lower_hex_char(#[trigger] a[i])
        }),
{
    let a = decoded_address(text).unwrap();
    let u = unwrapped(trimmed_bytes(text));
    let d = hex_payload(trimmed_bytes(text), true).unwrap();
    assert forall|i: int| 2 <= i < a.len() implies is_lower_hex_char(#[trigger] a[i]) by {
        assert(d[i - 2] == u[i]);
        assert(is_hex_digit(u[i]));
        assert(a[i] == lower_hex(d[i - 2]) as char);
    }
}

/// Decodes the wire text of a token address into its canonical form.
pub fn bytes_debut_to_addr(s: &str) -> (r: Result<String, DecodeError>)
    ensures
        match decoded_address(s@) {
            Ok(t) => r is Ok && r.unwrap()@ == t,
            Err(e) => r is Err && r.unwrap_err() == e,
        },
{
    let b = trim_text(s).as_bytes();
    let (lo, hi) = match find_payload(b, true) {
        Some(span) => span,
        None => {
            return Err(DecodeError::Malformed);
        },
    };
    let ghost d = b@.subrange(lo as int, hi as int);
    let mut out = String::new();
    push_char(&mut out, '0');
    push_char(&mut out, 'x');
    let mut i: usize = lo;
    while i < hi
        invariant
            lo <= i <= hi <= b@.len(),
            d == b@.subrange(lo as int, hi as int),
            out@ == address_text(d.subrange(0, i - lo)),
        decreases hi - i,
    {
        let c: char = lower_digit(b[i]) as char;
        push_char(&mut out, c);
        i += 1;
        assert(out@ =~= address_text(d.subrange(0, i - lo)));
    }
    assert(d.subrange(0, hi - lo) =~= d);
    Ok(out)
}

proof fn lemma_hex_value_prefix(d: Seq<u8>, i: int)
    requires
        0 <= i <= d.len(),
    ensures
        hex_value(d.subrange(0, i)) <= hex_value(d),
    decreases d.len(),
{
    if i == d.len() {
        assert(d.subrange(0, i) =~= d);
    } else {
        lemma_hex_value_prefix(d.drop_last(), i);
        assert(d.drop_last().subrange(0, i) =~= d.subrange(0, i));
    }
}

/// Two to the power of 124: a high word at or above it cannot take one more
/// hexadecimal digit.
const DIGIT_ROOM: u128 = 0x1000_0000_0000_0000_0000_0000_0000_0000;

/// Decodes the wire text of a balance into an unsigned integer of 256 bits.
pub fn bytes_debug_to_wide(s: &str) -> (r: Result<Wide, DecodeError>)
    ensures
        r == decoded_wide(s@),
{
    let b = trim_text(s).as_bytes();
    let (lo, hi) = match find_payload(b, false) {
        Some(span) => span,
        None => {
            return Err(DecodeError::Malformed);
        },
    };
    let ghost d = b@.subrange(lo as int, hi as int);
    let mut high: u128 = 0;
    let mut low: u128 = 0;
    let mut i: usize = lo;
    while i < hi
        invariant
            lo <= i <= hi <= b@.len(),
            d == b@.subrange(lo as int, hi as int),
            b@ == trimmed_bytes(s@),
            hex_payload(b@, false) == Some(d),
            forall|k: int| lo <= k < hi ==> is_hex_digit(#[trigger] b@[k]),
            wide_value(high, low) == hex_value(d.subrange(0, i - lo)),
        decreases hi - i,
    {
        let digit: u8 = match digit_value(b[i]) {
            Some(v) => v,
            None => {
                return Err(DecodeError::Malformed);
            },
        };
        proof {
            let next = d.subrange(0, i - lo + 1);
            assert(next.drop_last() =~= d.subrange(0, i - lo));
            assert(next.last() == b@[i as int]);
            assert(hex_value(next) == wide_value(high, low) * 16 + digit);
            lemma_hex_value_prefix(d, i - lo + 1);
        }
        if high >= DIGIT_ROOM {
            proof {
                assert(wide_value(high, low) * 16 >= wide_limit()) by (nonlinear_arith)
                    requires
                        high >= DIGIT_ROOM,
                        wide_value(high, low) == high * word() + low,
                        wide_limit() == word() * word(),
                        word() == DIGIT_ROOM * 16,
                        low >= 0,
                ;
            }
            return Err(DecodeError::OutOfRange);
        }
        let carry: u128 = low / DIGIT_ROOM;
        let kept: u128 = low % DIGIT_ROOM;
        proof {
            let w = word() as int;
            let room = DIGIT_ROOM as int;
            assert((high * 16 + carry) * w + (kept * 16 + digit) == (high * w + low) * 16 + digit)
                by (nonlinear_arith)
                requires
                    w == room * 16,
                    low == carry * room + kept,
            ;
        }
        high = high * 16 + carry;
        low = kept * 16 + digit as u128;
        i += 1;
    }
    proof {
        assert(d.subrange(0, hi - lo) =~= d);
        assert(hex_value(d) < wide_limit()) by (nonlinear_arith)
            requires
                hex_value(d) == high * word() + low,
                high < word(),
                low < word(),
                wide_limit() == word() * word(),
        ;
        lemma_fundamental_div_mod_converse(
            hex_value(d) as int,
            word() as int,
            high as int,
            low as int,
        );
    }
    Ok(Wide { hi: high, lo: low })
}

/// Decodes the wire text of a balance into an unsigned integer of 128 bits.
pub fn bytes_debug_to_u128(s: &str) -> (r: Result<u128, DecodeError>)
    ensures
        r == decoded_amount(s@),
{
    proof {
        assert(wide_limit() > u128::MAX) by (nonlinear_arith)
            requires
                wide_limit() == word() * word(),
                word() == u128::MAX + 1,
        ;
    }
    match bytes_debug_to_wide(s) {
        Ok(w) => {
            proof {
                let v = hex_value(hex_payload(trimmed_bytes(s@), false).unwrap()) as int;
                let width = word() as int;
                vstd::arithmetic::div_mod::lemma_fundamental_div_mod(v, width);
                vstd::arithmetic::div_mod::lemma_mod_bound(v, width);
                assert(v == width * w.hi + w.lo);
                assert(w.hi != 0 ==> v >= width) by (nonlinear_arith)
                    requires
                        v == width * w.hi + w.lo,
                        width > 0,
                        w.lo >= 0,
                        w.hi >= 0,
                ;
                assert(w.hi == 0 ==> v == w.lo) by (nonlinear_arith)
                    requires
                        v == width * w.hi + w.lo,
                ;
            }
            if w.hi == 0 {
                Ok(w.lo)
            } else {
                Err(DecodeError::OutOfRange)
            }
        },
        Err(e) => Err(e),
    }
}

} // verus!
