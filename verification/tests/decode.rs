use pool_quoter::decode::{bytes_debug_to_u128, bytes_debug_to_wide, bytes_debut_to_addr, DecodeError};
use pool_quoter::wide::Wide;

#[test]
fn address_is_unwrapped_and_lowered() {
    assert_eq!(
        bytes_debut_to_addr("Bytes(0xA0b86991c6218b36c1d19D4a2e9Eb0cE3606eB48)"),
        Ok("0xa0b86991c6218b36c1d19d4a2e9eb0ce3606eb48".to_string())
    );
}

#[test]
fn address_may_be_bare() {
    assert_eq!(bytes_debut_to_addr("0xC02A"), Ok("0xc02a".to_string()));
    assert_eq!(bytes_debut_to_addr("0x0"), Ok("0x0".to_string()));
}

#[test]
fn address_ignores_surrounding_white_space() {
    assert_eq!(bytes_debut_to_addr("  Bytes(0xAB)\n"), Ok("0xab".to_string()));
    assert_eq!(bytes_debut_to_addr("\t0xCd \r\n"), Ok("0xcd".to_string()));
}

#[test]
fn address_without_digits_is_the_bare_prefix() {
    assert_eq!(bytes_debut_to_addr("Bytes(0x)"), Ok("0x".to_string()));
    assert_eq!(bytes_debut_to_addr("0x"), Ok("0x".to_string()));
}

#[test]
fn wrapped_address_of_forty_digits_is_canonical() {
    let decoded = bytes_debut_to_addr(" Bytes(0xC02AAA39B223FE8D0A0E5C4F27EAD9083C756CC2)\u{a0}").unwrap();
    assert_eq!(decoded.len(), 42);
    assert!(decoded.starts_with("0x"));
    assert!(decoded[2..].chars().all(|c| c.is_ascii_digit() || ('a'..='f').contains(&c)));
    assert_eq!(decoded, "0xc02aaa39b223fe8d0a0e5c4f27ead9083c756cc2");
}

#[test]
fn address_that_is_no_wire_value_is_malformed() {
    assert_eq!(bytes_debut_to_addr(""), Err(DecodeError::Malformed));
    assert_eq!(bytes_debut_to_addr("   "), Err(DecodeError::Malformed));
    assert_eq!(bytes_debut_to_addr("hello"), Err(DecodeError::Malformed));
    assert_eq!(bytes_debut_to_addr("Bytes(0xzz)"), Err(DecodeError::Malformed));
    assert_eq!(bytes_debut_to_addr("Bytes(ab)"), Err(DecodeError::Malformed));
    assert_eq!(bytes_debut_to_addr("Bytes(0xab"), Err(DecodeError::Malformed));
    assert_eq!(bytes_debut_to_addr("0Xab"), Err(DecodeError::Malformed));
    assert_eq!(bytes_debut_to_addr("0xa b"), Err(DecodeError::Malformed));
    assert_eq!(bytes_debut_to_addr("0x\u{e9}"), Err(DecodeError::Malformed));
    assert_eq!(bytes_debut_to_addr("bytes(0xab)"), Err(DecodeError::Malformed));
}

#[test]
fn balance_is_read_as_hexadecimal() {
    assert_eq!(bytes_debug_to_u128("Bytes(0x0de0b6b3a7640000)"), Ok(1_000_000_000_000_000_000));
    assert_eq!(bytes_debug_to_u128("Bytes(0xFF)"), Ok(255));
    assert_eq!(bytes_debug_to_u128(" Bytes(0x0a) "), Ok(10));
    assert_eq!(bytes_debug_to_u128("Bytes(0x10)"), Ok(16));
}

#[test]
fn balance_without_digits_is_zero() {
    assert_eq!(bytes_debug_to_u128("Bytes(0x)"), Ok(0));
    assert_eq!(bytes_debug_to_u128("Bytes(0x0000)"), Ok(0));
}

#[test]
fn balance_that_is_no_wire_value_is_malformed_not_zero() {
    assert_eq!(bytes_debug_to_u128(""), Err(DecodeError::Malformed));
    assert_eq!(bytes_debug_to_u128("12"), Err(DecodeError::Malformed));
    assert_eq!(bytes_debug_to_u128("Bytes(0x12g4)"), Err(DecodeError::Malformed));
    assert_eq!(bytes_debug_to_u128("Bytes(12)"), Err(DecodeError::Malformed));
    assert_eq!(bytes_debug_to_u128("Bytes(0x12))"), Err(DecodeError::Malformed));
    assert_eq!(bytes_debug_to_u128("Bytes (0x12)"), Err(DecodeError::Malformed));
}

#[test]
fn balance_up_to_128_bits_fits() {
    assert_eq!(
        bytes_debug_to_u128("Bytes(0xffffffffffffffffffffffffffffffff)"),
        Ok(u128::MAX)
    );
    assert_eq!(
        bytes_debug_to_u128("Bytes(0x00ffffffffffffffffffffffffffffffff)"),
        Ok(u128::MAX)
    );
}

#[test]
fn balance_beyond_128_bits_is_out_of_range() {
    assert_eq!(
        bytes_debug_to_u128("Bytes(0x100000000000000000000000000000000)"),
        Err(DecodeError::OutOfRange)
    );
    assert_eq!(
        bytes_debug_to_u128(
            "Bytes(0xffffffffffffffffffffffffffffffffffffffffffffffffffffffffffffffff)"
        ),
        Err(DecodeError::OutOfRange)
    );
}

#[test]
fn balance_without_the_wrapper_is_malformed() {
    assert_eq!(bytes_debug_to_u128("0x10"), Err(DecodeError::Malformed));
    assert_eq!(bytes_debug_to_u128("0x0"), Err(DecodeError::Malformed));
    assert_eq!(bytes_debug_to_u128("0x"), Err(DecodeError::Malformed));
    assert_eq!(bytes_debug_to_u128(" 0xff "), Err(DecodeError::Malformed));
    assert_eq!(
        bytes_debug_to_u128("0xffffffffffffffffffffffffffffffffffffffffffffffffffffffffffffffff"),
        Err(DecodeError::Malformed)
    );
    assert_eq!(bytes_debug_to_wide("0x10"), Err(DecodeError::Malformed));
    assert_eq!(bytes_debug_to_wide("0x"), Err(DecodeError::Malformed));
}

#[test]
fn wide_balance_holds_256_bits() {
    assert_eq!(bytes_debug_to_wide("Bytes(0x)"), Ok(Wide { hi: 0, lo: 0 }));
    assert_eq!(bytes_debug_to_wide("Bytes(0x0de0b6b3a7640000)"), Ok(Wide { hi: 0, lo: 1_000_000_000_000_000_000 }));
    assert_eq!(
        bytes_debug_to_wide("Bytes(0x100000000000000000000000000000000)"),
        Ok(Wide { hi: 1, lo: 0 })
    );
    assert_eq!(
        bytes_debug_to_wide("Bytes(0x0123456789abcdef0123456789ABCDEFfedcba9876543210fedcba9876543210)"),
        Ok(Wide {
            hi: 0x0123456789abcdef0123456789abcdef,
            lo: 0xfedcba9876543210fedcba9876543210
        })
    );
    assert_eq!(
        bytes_debug_to_wide("Bytes(0xffffffffffffffffffffffffffffffffffffffffffffffffffffffffffffffff)"),
        Ok(Wide { hi: u128::MAX, lo: u128::MAX })
    );
    assert_eq!(
        bytes_debug_to_wide("Bytes(0x00ffffffffffffffffffffffffffffffffffffffffffffffffffffffffffffffff)"),
        Ok(Wide { hi: u128::MAX, lo: u128::MAX })
    );
    assert_eq!(
        bytes_debug_to_wide("Bytes(0x10000000000000000000000000000000000000000000000000000000000000000)"),
        Err(DecodeError::OutOfRange)
    );
    assert_eq!(bytes_debug_to_wide("Bytes(0xg)"), Err(DecodeError::Malformed));
}

#[test]
fn white_space_beyond_ascii_is_trimmed() {
    assert_eq!(bytes_debut_to_addr("\u{a0}Bytes(0xab)"), Ok("0xab".to_string()));
    assert_eq!(bytes_debut_to_addr("\u{2003}\u{3000}0xCD\u{85}\u{2028}"), Ok("0xcd".to_string()));
    assert_eq!(bytes_debug_to_u128("\u{1680}Bytes(0x0a)\u{205f}"), Ok(10));
    assert_eq!(
        bytes_debut_to_addr("\u{a0} Bytes(0xA0b86991c6218b36c1d19D4a2e9Eb0cE3606eB48)\u{202f}"),
        Ok("0xa0b86991c6218b36c1d19d4a2e9eb0ce3606eb48".to_string())
    );
}

#[test]
fn white_space_is_what_the_unicode_property_says() {
    let listed: [u32; 25] = [
        0x09, 0x0a, 0x0b, 0x0c, 0x0d, 0x20, 0x85, 0xa0, 0x1680, 0x2000, 0x2001, 0x2002, 0x2003,
        0x2004, 0x2005, 0x2006, 0x2007, 0x2008, 0x2009, 0x200a, 0x2028, 0x2029, 0x202f, 0x205f,
        0x3000,
    ];
    let mut n: u32 = 0;
    while n <= 0x3100 {
        if let Some(c) = char::from_u32(n) {
            let before = format!("{}Bytes(0x01)", c);
            let after = format!("0x01{}", c);
            if listed.contains(&n) {
                assert_eq!(bytes_debug_to_u128(&before), Ok(1));
                assert_eq!(bytes_debut_to_addr(&after), Ok("0x01".to_string()));
            } else {
                assert_eq!(bytes_debug_to_u128(&before), Err(DecodeError::Malformed));
                if !c.is_ascii_hexdigit() {
                    assert_eq!(bytes_debut_to_addr(&after), Err(DecodeError::Malformed));
                }
            }
        }
        n += 1;
    }
    assert_eq!(bytes_debut_to_addr("\u{feff}0x01"), Err(DecodeError::Malformed));
    assert_eq!(bytes_debut_to_addr("inside 0x01"), Err(DecodeError::Malformed));
    assert_eq!(bytes_debut_to_addr("0x01\u{a0}02"), Err(DecodeError::Malformed));
}
