use rpi2_os::hex::{parse_hex, push_hex08};

fn hex08(n: usize) -> Vec<u8> {
    let mut out = Vec::new();
    push_hex08(&mut out, n);
    out
}

#[test]
fn parse_hex_accepts_prefixed_and_bare_digits() {
    assert_eq!(parse_hex(b"0x3F200000"), Some(0x3F20_0000));
    assert_eq!(parse_hex(b"3f200000"), Some(0x3F20_0000));
    assert_eq!(parse_hex(b"0X1a"), Some(0x1A));
    assert_eq!(parse_hex(b"0"), Some(0));
    assert_eq!(parse_hex(b"0x0"), Some(0));
    assert_eq!(parse_hex(b"AbCdEf"), Some(0xABCDEF));
}

#[test]
fn parse_hex_rejects_empty_and_non_digits() {
    assert_eq!(parse_hex(b""), None);
    assert_eq!(parse_hex(b"0x"), None);
    assert_eq!(parse_hex(b"0X"), None);
    assert_eq!(parse_hex(b"xyz"), None);
    assert_eq!(parse_hex(b"0x1g"), None);
    assert_eq!(parse_hex(b"12 34"), None);
    assert_eq!(parse_hex(b"-1"), None);
    assert_eq!(parse_hex(b"0x0x1"), None);
}

#[test]
fn parse_hex_rejects_values_that_do_not_fit() {
    let max = format!("{:x}", usize::MAX);
    assert_eq!(parse_hex(max.as_bytes()), Some(usize::MAX));
    let too_big = format!("{:x}0", usize::MAX);
    assert_eq!(parse_hex(too_big.as_bytes()), None);
    let one_more = format!("1{}", "0".repeat((usize::BITS / 4) as usize));
    assert_eq!(parse_hex(one_more.as_bytes()), None);
    // Leading zeros do not count against the size.
    let padded = format!("0x{}1", "0".repeat(40));
    assert_eq!(parse_hex(padded.as_bytes()), Some(1));
}

#[test]
fn push_hex08_pads_to_eight_lowercase_digits() {
    assert_eq!(hex08(0), b"00000000".to_vec());
    assert_eq!(hex08(0x3F21_5054), b"3f215054".to_vec());
    assert_eq!(hex08(0x60), b"00000060".to_vec());
    assert_eq!(hex08(0xFFFF_FFFF), b"ffffffff".to_vec());
    let mut out = b"x=".to_vec();
    push_hex08(&mut out, 0xAB);
    assert_eq!(out, b"x=000000ab".to_vec());
}

#[test]
fn push_hex08_keeps_all_digits_of_wide_values() {
    if usize::BITS == 64 {
        let v: u64 = 0x1_2345_6789;
        assert_eq!(hex08(v as usize), b"123456789".to_vec());
    }
}

#[test]
fn hex_output_parses_back() {
    for v in [0usize, 1, 0x3F00_B898, 0xFFFF_FFFF, usize::MAX, 0x1234] {
        let mut text = b"0x".to_vec();
        push_hex08(&mut text, v);
        assert_eq!(parse_hex(&text), Some(v));
        assert_eq!(parse_hex(&hex08(v)), Some(v));
    }
}

#[test]
fn unpadded_output_in_either_case_parses_back() {
    for v in [0usize, 7, 0xA, 0x3F00_B898, 0xFFFF_FFFF, usize::MAX] {
        assert_eq!(parse_hex(format!("{:x}", v).as_bytes()), Some(v));
        assert_eq!(parse_hex(format!("{:X}", v).as_bytes()), Some(v));
        assert_eq!(parse_hex(format!("0X{:X}", v).as_bytes()), Some(v));
    }
}

#[test]
fn parsing_ignores_case() {
    for s in [&b"0x3f215054"[..], b"abcdef", b"0xg1", b"xyz", b"0x", b"Ff00"] {
        assert_eq!(parse_hex(&s.to_ascii_uppercase()), parse_hex(s));
    }
}

#[test]
fn a_leading_zero_digit_changes_nothing() {
    for t in [&b"1"[..], b"ff", b"0", b"3F215054"] {
        let mut z = b"0".to_vec();
        z.extend_from_slice(t);
        assert_eq!(parse_hex(&z), parse_hex(t));
    }
    let max = format!("{:x}", usize::MAX);
    assert_eq!(parse_hex(format!("0{}", max).as_bytes()), Some(usize::MAX));
}
