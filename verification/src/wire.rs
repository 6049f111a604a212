//! Values of the feed as `tycho_common` hands them over: byte strings that
//! are rendered to their wire text and then decoded.

use crate::decode::{
    address_text, bytes_debug_to_wide, bytes_debut_to_addr, decoded_address, decoded_amount,
    decoded_wide, hex_digit_value, hex_payload, hex_value, is_hex_digit, is_hex_literal,
    is_wrapped, lower_hex, skip_leading, skip_trailing, trimmed, unwrapped, wrapper_open,
    DecodeError,
};
use crate::wide::{wide_limit, word, Wide};
use crate::reconcile::BalanceUpdate;
use vstd::prelude::*;

verus! {

/// The byte string of `tycho_common`, carried through as it is.
#[verifier::external_type_specification]
#[verifier::external_body]
pub struct ExBytes(tycho_common::Bytes);

/// The bytes that a byte string of the feed holds.
pub uninterp spec fn bytes_held(b: tycho_common::Bytes) -> Seq<u8>;

/// The lower-case hexadecimal digit of a value below sixteen.
pub open spec fn hex_char(nibble: u8) -> char {
    if nibble < 10 {
        (0x30 + nibble) as u8 as char
    } else {
        (0x61 + (nibble - 10)) as u8 as char
    }
}

/// Two hexadecimal digits for each byte, the high half first.
pub open spec fn hex_text(bytes: Seq<u8>) -> Seq<char> {
    Seq::new(
        2 * bytes.len(),
        |i: int|
            hex_char(
                if i % 2 == 0 {
                    bytes[i / 2] / 16
                } else {
                    bytes[i / 2] % 16
                },
            ),
    )
}

/// The wire text of a byte string: `Bytes(0x`, its digits, `)`.
pub open spec fn wire_text(bytes: Seq<u8>) -> Seq<char> {
    seq!['B', 'y', 't', 'e', 's', '(', '0', 'x'] + hex_text(bytes) + seq![')']
}

/// Renders a byte string through the `Debug` impl of `tycho_common::Bytes`,
/// which writes `Bytes(0x`, then the bytes as lower-case hexadecimal digits
/// by `hex::encode`, then `)`.
#[verifier::external_body]
fn render(b: &tycho_common::Bytes) -> (r: String)
    ensures
        r@ == wire_text(bytes_held(*b)),
{
    format!("{:?}", b)
}

/// Copies the bytes out through `tycho_common::Bytes::to_vec`, which returns
/// the bytes that the value holds, in order.
#[verifier::external_body]
fn contents(b: &tycho_common::Bytes) -> (r: Vec<u8>)
    ensures
        r@ == bytes_held(*b),
{
    b.to_vec()
}

/// The canonical address of a token that the feed names by a byte string:
/// `0x` and two lower-case digits for each byte.
pub fn token_address(token: &tycho_common::Bytes) -> (r: Result<String, DecodeError>)
    ensures
        r is Ok,
        r.unwrap()@ == seq!['0', 'x'] + hex_text(bytes_held(*token)),
{
    let text = render(token);
    proof {
        lemma_wire_text_decodes(bytes_held(*token));
    }
    bytes_debut_to_addr(text.as_str())
}

/// The balance that the feed gives as a byte string, most significant byte
/// first. A value beyond 256 bits is refused.
pub fn raw_balance(balance: &tycho_common::Bytes) -> (r: Result<Wide, DecodeError>)
    ensures
        r == (if be_value(bytes_held(*balance)) >= wide_limit() {
            Err::<Wide, DecodeError>(DecodeError::OutOfRange)
        } else {
            Ok(
                Wide {
                    hi: (be_value(bytes_held(*balance)) / word()) as u128,
                    lo: (be_value(bytes_held(*balance)) % word()) as u128,
                },
            )
        }),
{
    let text = render(balance);
    proof {
        lemma_wire_text_decodes(bytes_held(*balance));
    }
    bytes_debug_to_wide(text.as_str())
}

/// A balance change in the form that the reconciler takes, from the values of
/// the feed.
pub fn balance_update(
    component: String,
    token: &tycho_common::Bytes,
    balance: &tycho_common::Bytes,
    balance_float_bits: u64,
    modify_tx: &tycho_common::Bytes,
) -> (r: BalanceUpdate)
    ensures
        r.component == component,
        r.token@ == wire_text(bytes_held(*token)),
        r.balance@ == wire_text(bytes_held(*balance)),
        r.balance_float_bits == balance_float_bits,
        r.modify_tx@ == wire_text(bytes_held(*modify_tx)),
{
    BalanceUpdate {
        component,
        token: render(token),
        balance: render(balance),
        balance_float_bits,
        modify_tx: render(modify_tx),
    }
}

/// The raw value of a static attribute, from the value of the feed.
pub fn attribute_value(value: &tycho_common::Bytes) -> (r: Vec<u8>)
    ensures
        r@ == bytes_held(*value),
{
    contents(value)
}

/// The number that bytes write, most significant byte first.
pub open spec fn be_value(bytes: Seq<u8>) -> nat
    decreases bytes.len(),
{
    if bytes.len() == 0 {
        0
    } else {
        be_value(bytes.drop_last()) * 256 + bytes.last() as nat
    }
}

/// The digits of `hex_text` as bytes.
spec fn digit_bytes(bytes: Seq<u8>) -> Seq<u8> {
    Seq::new(2 * bytes.len(), |i: int| hex_text(bytes)[i] as u8)
}

proof fn lemma_hex_char(nibble: u8)
    requires
        nibble < 16,
    ensures
        '\0' <= hex_char(nibble) <= '\u{7f}',
        is_hex_digit(hex_char(nibble) as u8),
        hex_digit_value(hex_char(nibble) as u8) == nibble,
        lower_hex(hex_char(nibble) as u8) as char == hex_char(nibble),
{
}

proof fn lemma_hex_text_digits(bytes: Seq<u8>, i: int)
    requires
        0 <= i < 2 * bytes.len(),
    ensures
        '\0' <= hex_text(bytes)[i] <= '\u{7f}',
        is_hex_digit(hex_text(bytes)[i] as u8),
        lower_hex(hex_text(bytes)[i] as u8) as char == hex_text(bytes)[i],
{
    let b = bytes[i / 2];
    assert(b / 16 < 16 && b % 16 < 16);
    lemma_hex_char(b / 16);
    lemma_hex_char(b % 16);
}

proof fn lemma_digit_bytes_value(bytes: Seq<u8>)
    ensures
        hex_value(digit_bytes(bytes)) == be_value(bytes),
    decreases bytes.len(),
{
    if bytes.len() > 0 {
        let n = bytes.len() as int;
        let b = bytes.last();
        let all = digit_bytes(bytes);
        let but_low = all.drop_last();
        lemma_digit_bytes_value(bytes.drop_last());
        assert(but_low.drop_last() =~= digit_bytes(bytes.drop_last()));
        assert((2 * n - 1) / 2 == n - 1 && (2 * n - 2) / 2 == n - 1);
        assert(all.last() == hex_char(b % 16) as u8);
        assert(but_low.last() == hex_char(b / 16) as u8);
        assert(b / 16 < 16 && b % 16 < 16);
        lemma_hex_char(b / 16);
        lemma_hex_char(b % 16);
        assert(hex_value(all) == hex_value(but_low) * 16 + (b % 16));
        assert(hex_value(but_low) == hex_value(but_low.drop_last()) * 16 + (b / 16));
        assert((b / 16) * 16 + b % 16 == b);
    }
}

/// Decoding undoes rendering: the wire text of a byte string decodes to the
/// address `0x` and its digits, and to the number that the bytes write, most
/// significant first, unless that exceeds the width asked for.
pub proof fn lemma_wire_text_decodes(bytes: Seq<u8>)
    ensures
        decoded_address(wire_text(bytes)) == Ok::<Seq<char>, DecodeError>(
            seq!['0', 'x'] + hex_text(bytes),
        ),
        decoded_amount(wire_text(bytes)) == (if be_value(bytes) > u128::MAX {
            Err::<u128, DecodeError>(DecodeError::OutOfRange)
        } else {
            Ok(be_value(bytes) as u128)
        }),
        decoded_wide(wire_text(bytes)) == (if be_value(bytes) >= wide_limit() {
            Err::<Wide, DecodeError>(DecodeError::OutOfRange)
        } else {
            Ok(
                Wide {
                    hi: (be_value(bytes) / word()) as u128,
                    lo: (be_value(bytes) % word()) as u128,
                },
            )
        }),
{
    let t = wire_text(bytes);
    let n = bytes.len() as int;
    assert(t.len() == 9 + 2 * n);
    assert forall|i: int| 0 <= i < t.len() implies '\0' <= #[trigger] t[i] <= '\u{7f}' by {
        if 8 <= i < 8 + 2 * n {
            assert(t[i] == hex_text(bytes)[i - 8]);
            lemma_hex_text_digits(bytes, i - 8);
        }
    }
    assert(t[0] == 'B' && t[t.len() - 1] == ')');
    assert(skip_leading(t, 0) == 0);
    assert(skip_trailing(t, 0, t.len() as int) == t.len());
    assert(trimmed(t) =~= t);
    vstd::utf8::is_ascii_chars_encode_utf8(t);
    let e = vstd::utf8::encode_utf8(t);
    assert(e.len() == t.len());
    assert forall|i: int| 0 <= i < e.len() implies #[trigger] e[i] == t[i] as u8 by {}
    assert(e[0] == 0x42u8);
    assert(e[e.len() - 1] == 0x29u8) by {
        assert(t[t.len() - 1] == ')');
    }
    assert(e.subrange(0, 6) =~= wrapper_open()) by {
        assert(t[0] == 'B' && t[1] == 'y' && t[2] == 't' && t[3] == 'e' && t[4] == 's' && t[5]
            == '(');
    }
    assert(is_wrapped(e));
    let u = unwrapped(e);
    assert(u.len() == 2 + 2 * n);
    assert(u[0] == 0x30u8 && u[1] == 0x78u8) by {
        assert(t[6] == '0' && t[7] == 'x');
        assert(u[0] == e[6] && u[1] == e[7]);
    }
    assert forall|i: int| 2 <= i < u.len() implies is_hex_digit(#[trigger] u[i]) by {
        assert(u[i] == e[6 + i]);
        assert(t[6 + i] == hex_text(bytes)[i - 2]);
        lemma_hex_text_digits(bytes, i - 2);
    }
    assert(is_hex_literal(u));
    let d = u.subrange(2, u.len() as int);
    assert(hex_payload(e, true) == Some(d));
    assert(hex_payload(e, false) == Some(d));
    assert(d =~= digit_bytes(bytes)) by {
        assert forall|i: int| 0 <= i < d.len() implies d[i] == digit_bytes(bytes)[i] by {
            assert(d[i] == e[8 + i]);
            assert(t[8 + i] == hex_text(bytes)[i]);
        }
    }
    assert(address_text(d) =~= seq!['0', 'x'] + hex_text(bytes)) by {
        assert forall|i: int| 0 <= i < 2 * n implies lower_hex(d[i]) as char == hex_text(
            bytes,
        )[i] by {
            lemma_hex_text_digits(bytes, i);
        }
    }
    lemma_digit_bytes_value(bytes);
}

} // verus!
