use vstd::prelude::*;

verus! {

/// Whether `b` is an ASCII hexadecimal digit, in either case.
pub open spec fn is_hex_digit(b: u8) -> bool {
    ||| 0x30 <= b <= 0x39
    ||| 0x61 <= b <= 0x66
    ||| 0x41 <= b <= 0x46
}

/// The value of the hexadecimal digit `b`.
pub open spec fn digit_value(b: u8) -> nat {
    if 0x30 <= b <= 0x39 {
        (b - 0x30) as nat
    } else if 0x61 <= b <= 0x66 {
        (b - 0x61 + 10) as nat
    } else {
        (b - 0x41 + 10) as nat
    }
}

/// The value of a string of hexadecimal digits, most significant first.
pub open spec fn hex_value(digits: Seq<u8>) -> nat
    decreases digits.len(),
{
    if digits.len() == 0 {
        0
    } else {
        hex_value(digits.drop_last()) * 16 + digit_value(digits.last())
    }
}

/// `s` without a leading `0x` or `0X`.
pub open spec fn strip_hex_prefix(s: Seq<u8>) -> Seq<u8> {
    if s.len() >= 2 && s[0] == 0x30 && (s[1] == 0x78 || s[1] == 0x58) {
        s.skip(2)
    } else {
        s
    }
}

/// What `parse_hex` makes of `s`: after an optional `0x` or `0X`, one or more
/// hexadecimal digits in either case whose value fits in a `usize`;
/// anything else has no value.
pub open spec fn parse_hex_spec(s: Seq<u8>) -> Option<usize> {
    let digits = strip_hex_prefix(s);
    if digits.len() > 0 && (forall|i: int| 0 <= i < digits.len() ==> is_hex_digit(#[trigger] digits[i]))
        && hex_value(digits) <= usize::MAX {
        Some(hex_value(digits) as usize)
    } else {
        None
    }
}

/// The lowercase hexadecimal digit for `d < 16`.
pub open spec fn hex_char(d: nat) -> u8 {
    if d < 10 {
        (0x30 + d) as u8
    } else {
        (0x61 + d - 10) as u8
    }
}

/// The lowercase hexadecimal digits of `n`, most significant first, with no
/// leading zeros (`0` is the single digit `0`).
pub open spec fn hex_digits(n: nat) -> Seq<u8>
    decreases n,
{
    if n < 16 {
        seq![hex_char(n)]
    } else {
        hex_digits(n / 16).push(hex_char(n % 16))
    }
}

/// `n` in lowercase hexadecimal, padded with zeros to at least eight digits
/// (the `{:08x}` format).
pub open spec fn hex08(n: nat) -> Seq<u8> {
    let d = hex_digits(n);
    if d.len() < 8 {
        Seq::new((8 - d.len()) as nat, |i: int| 0x30u8) + d
    } else {
        d
    }
}

/// Values grow as digits are appended: a prefix of a digit string is worth no
/// more than the whole.
proof fn lemma_hex_value_prefix(digits: Seq<u8>, k: int)
    requires
        0 <= k <= digits.len(),
    ensures
        hex_value(digits.take(k)) <= hex_value(digits),
    decreases digits.len(),
{
    if k < digits.len() {
        lemma_hex_value_prefix(digits.drop_last(), k);
        assert(digits.drop_last().take(k) =~= digits.take(k));
    } else {
        assert(digits.take(k) =~= digits);
    }
}

/// Parses a hexadecimal number such as `0x3F200000` or `3f200000`: an
/// optional `0x` or `0X`, then one or more digits in either case. `None` when
/// nothing follows the prefix, when a byte is not a hexadecimal digit, or
/// when the value does not fit in a `usize`.
pub fn parse_hex(s: &[u8]) -> (r: Option<usize>)
    ensures
        r == parse_hex_spec(s@),
{
    let start: usize = if s.len() >= 2 && s[0] == 0x30 && (s[1] == 0x78 || s[1] == 0x58) {
        2
    } else {
        0
    };
    let ghost digits = strip_hex_prefix(s@);
    assert(digits =~= s@.subrange(start as int, s@.len() as int));
    if start == s.len() {
        return None;
    }
    let mut val: usize = 0;
    let mut i: usize = start;
    while i < s.len()
        invariant
            start <= i <= s@.len(),
            digits == strip_hex_prefix(s@),
            digits == s@.subrange(start as int, s@.len() as int),
            forall|j: int| 0 <= j < i - start ==> is_hex_digit(#[trigger] digits[j]),
            val == hex_value(digits.take(i - start)),
        decreases s@.len() - i,
    {
        let b = s[i];
        assert(digits[i - start] == b);
        let nibble: usize = if 0x30 <= b && b <= 0x39 {
            (b - 0x30) as usize
        } else if 0x61 <= b && b <= 0x66 {
            (b - 0x61 + 10) as usize
        } else if 0x41 <= b && b <= 0x46 {
            (b - 0x41 + 10) as usize
        } else {
            assert(!is_hex_digit(digits[i - start]));
            assert(!(forall|j: int| 0 <= j < digits.len() ==> is_hex_digit(#[trigger] digits[j])));
            return None;
        };
        let ghost k = i - start;
        assert(digits.take(k + 1).drop_last() =~= digits.take(k));
        assert(digits.take(k + 1).last() == b);
        let shifted = match val.checked_mul(16) {
            Some(v) => v,
            None => {
                proof {
                    lemma_hex_value_prefix(digits, k + 1);
                }
                return None;
            },
        };
        val = match shifted.checked_add(nibble) {
            Some(v) => v,
            None => {
                proof {
                    lemma_hex_value_prefix(digits, k + 1);
                }
                return None;
            },
        };
        i += 1;
    }
    assert(digits.take(digits.len() as int) =~= digits);
    Some(val)
}

/// Appends the digits of `hex_digits(n)` to `out`.
fn push_hex_digits(out: &mut Vec<u8>, n: usize)
    ensures
        final(out)@ == old(out)@ + hex_digits(n as nat),
    decreases n,
{
    if n >= 16 {
        push_hex_digits(out, n / 16);
    }
    let d = n % 16;
    let c: u8 = if d < 10 {
        0x30 + d as u8
    } else {
        0x61 + (d - 10) as u8
    };
    out.push(c);
    assert(out@ =~= old(out)@ + hex_digits(n as nat));
}

/// Appends `n` formatted as `{:08x}` (see `hex08`) to `out`.
pub fn push_hex08(out: &mut Vec<u8>, n: usize)
    ensures
        final(out)@ == old(out)@ + hex08(n as nat),
{
    let mut digits: Vec<u8> = Vec::new();
    push_hex_digits(&mut digits, n);
    let len = digits.len();
    let mut pad: usize = len;
    while pad < 8
        invariant
            len <= pad <= 8 || (len >= 8 && pad == len),
            len == hex_digits(n as nat).len(),
            out@ == old(out)@ + Seq::new((pad - len) as nat, |i: int| 0x30u8),
        decreases 8 - pad,
    {
        out.push(0x30);
        pad += 1;
        assert(out@ =~= old(out)@ + Seq::new((pad - len) as nat, |i: int| 0x30u8));
    }
    let mut i: usize = 0;
    let ghost padded = out@;
    while i < len
        invariant
            i <= len,
            len == digits@.len(),
            digits@ == hex_digits(n as nat),
            out@ == padded + digits@.take(i as int),
        decreases len - i,
    {
        out.push(digits[i]);
        i += 1;
        assert(out@ =~= padded + digits@.take(i as int));
    }
    assert(digits@.take(len as int) =~= digits@);
    assert(out@ =~= old(out)@ + hex08(n as nat));
}

// ---------------------------------------------------------------------------
// Laws
// ---------------------------------------------------------------------------

proof fn lemma_hex_char(d: nat)
    requires
        d < 16,
    ensures
        is_hex_digit(hex_char(d)),
        digit_value(hex_char(d)) == d,
        0x61 <= hex_char(d) <= 0x66 || 0x30 <= hex_char(d) <= 0x39,
{
}

/// Whether `b` is a digit or one of the lowercase letters `a` to `f`.
pub open spec fn is_lower_hex_digit(b: u8) -> bool {
    0x30 <= b <= 0x39 || 0x61 <= b <= 0x66
}

/// `16` to the power `k`.
pub open spec fn sixteen_to(k: nat) -> nat
    decreases k,
{
    if k == 0 {
        1
    } else {
        16 * sixteen_to((k - 1) as nat)
    }
}

/// A number below `16^k` has at most `k` digits.
proof fn lemma_hex_digits_len(n: nat, k: nat)
    requires
        k >= 1,
        n < sixteen_to(k),
    ensures
        hex_digits(n).len() <= k,
    decreases k,
{
    if n >= 16 {
        assert(k >= 2) by {
            if k == 1 {
                assert(sixteen_to(0) == 1);
            }
        }
        assert(n / 16 < sixteen_to((k - 1) as nat));
        lemma_hex_digits_len(n / 16, (k - 1) as nat);
    }
}

/// The digits of `n` are hexadecimal digits and are worth `n`.
proof fn lemma_hex_digits(n: nat)
    ensures
        hex_digits(n).len() >= 1,
        forall|i: int| 0 <= i < hex_digits(n).len() ==> is_hex_digit(#[trigger] hex_digits(n)[i]),
        forall|i: int|
            0 <= i < hex_digits(n).len() ==> is_lower_hex_digit(#[trigger] hex_digits(n)[i]),
        hex_value(hex_digits(n)) == n,
    decreases n,
{
    if n < 16 {
        lemma_hex_char(n);
        let d = hex_digits(n);
        assert(d.drop_last() =~= Seq::<u8>::empty());
        assert(hex_value(d.drop_last()) == 0);
        assert(d.last() == hex_char(n));
        assert(hex_value(d) == hex_value(d.drop_last()) * 16 + digit_value(d.last()));
    } else {
        lemma_hex_digits(n / 16);
        lemma_hex_char(n % 16);
        assert(hex_digits(n).drop_last() =~= hex_digits(n / 16));
        assert(hex_digits(n).last() == hex_char(n % 16));
        vstd::arithmetic::div_mod::lemma_fundamental_div_mod(n as int, 16);
        let d = hex_digits(n);
        assert(hex_value(d) == hex_value(d.drop_last()) * 16 + digit_value(d.last()));
        assert(hex_value(d.drop_last()) == n / 16);
        assert(digit_value(d.last()) == n % 16);
    }
}

/// Leading zeros do not change a value.
proof fn lemma_leading_zeros(k: nat, d: Seq<u8>)
    ensures
        hex_value(Seq::new(k, |i: int| 0x30u8) + d) == hex_value(d),
    decreases d.len(), k,
{
    let z = Seq::new(k, |i: int| 0x30u8);
    if d.len() == 0 {
        assert(z + d =~= z);
        if k > 0 {
            lemma_leading_zeros((k - 1) as nat, d);
            assert(z.drop_last() =~= Seq::new((k - 1) as nat, |i: int| 0x30u8));
            assert(Seq::new((k - 1) as nat, |i: int| 0x30u8) + d =~= z.drop_last());
        }
    } else {
        lemma_leading_zeros(k, d.drop_last());
        assert((z + d).drop_last() =~= z + d.drop_last());
    }
}

/// The `{:08x}` text of `n` is hexadecimal digits worth `n`, at least eight of
/// them.
pub proof fn lemma_hex08(n: nat)
    ensures
        hex08(n).len() >= 8,
        n < 0x1_0000_0000 ==> hex08(n).len() == 8,
        forall|i: int| 0 <= i < hex08(n).len() ==> is_hex_digit(#[trigger] hex08(n)[i]),
        forall|i: int| 0 <= i < hex08(n).len() ==> is_lower_hex_digit(#[trigger] hex08(n)[i]),
        hex_value(hex08(n)) == n,
{
    lemma_hex_digits(n);
    let d = hex_digits(n);
    if n < 0x1_0000_0000 {
        reveal_with_fuel(sixteen_to, 9);
        assert(sixteen_to(8) == 0x1_0000_0000);
        lemma_hex_digits_len(n, 8);
    }
    if d.len() < 8 {
        lemma_leading_zeros((8 - d.len()) as nat, d);
        let z = Seq::new((8 - d.len()) as nat, |i: int| 0x30u8);
        assert forall|i: int| 0 <= i < hex08(n).len() implies is_hex_digit(#[trigger] hex08(n)[i])
            && is_lower_hex_digit(hex08(n)[i]) by {
            if i >= z.len() {
                assert(hex08(n)[i] == d[i - z.len()]);
            }
        }
    }
}

/// Whether every byte of `s` is a hexadecimal digit.
pub open spec fn all_hex(s: Seq<u8>) -> bool {
    forall|i: int| 0 <= i < s.len() ==> is_hex_digit(#[trigger] s[i])
}

/// What parses: one or more hexadecimal digits worth at most `usize::MAX`,
/// bare or after `0x` or `0X`; nothing else.
pub proof fn lemma_parse_hex_accepts(s: Seq<u8>)
    ensures
        parse_hex_spec(s) is Some <==> ({
            ||| s.len() > 0 && all_hex(s) && hex_value(s) <= usize::MAX
            ||| s.len() > 2 && s[0] == 0x30 && (s[1] == 0x78 || s[1] == 0x58) && all_hex(s.skip(2))
                && hex_value(s.skip(2)) <= usize::MAX
        }),
{
    if s.len() >= 2 && s[0] == 0x30 && (s[1] == 0x78 || s[1] == 0x58) {
        assert(!is_hex_digit(s[1]));
    } else if s.len() >= 2 {
        assert(strip_hex_prefix(s) == s);
    }
}

/// A parsed value is the value of the digits after the prefix: it never
/// wraps, and digits worth more than a `usize` holds do not parse.
pub proof fn lemma_parse_hex_value(s: Seq<u8>)
    ensures
        parse_hex_spec(s) matches Some(v) ==> v == hex_value(strip_hex_prefix(s)),
        hex_value(strip_hex_prefix(s)) > usize::MAX ==> parse_hex_spec(s) is None,
{
}

/// A value printed with `0x` and `{:08x}`, as the `hex` command prints it,
/// parses back to itself.
pub proof fn lemma_hex_roundtrip(v: usize)
    ensures
        parse_hex_spec(seq![0x30u8, 0x78u8] + hex08(v as nat)) == Some(v),
        parse_hex_spec(hex08(v as nat)) == Some(v),
{
    lemma_hex08(v as nat);
    let h = hex08(v as nat);
    let s = seq![0x30u8, 0x78u8] + h;
    assert(strip_hex_prefix(s) =~= h);
    assert(is_hex_digit(h[1]));
    assert(strip_hex_prefix(h) =~= h);
}

/// `b` with an ASCII lowercase letter turned uppercase.
pub open spec fn ascii_upper(b: u8) -> u8 {
    if 0x61 <= b <= 0x7A {
        (b - 0x20) as u8
    } else {
        b
    }
}

/// `s` with every ASCII lowercase letter turned uppercase.
pub open spec fn to_upper(s: Seq<u8>) -> Seq<u8> {
    s.map_values(|b: u8| ascii_upper(b))
}

proof fn lemma_upper_byte(b: u8)
    ensures
        is_hex_digit(ascii_upper(b)) == is_hex_digit(b),
        is_hex_digit(b) ==> digit_value(ascii_upper(b)) == digit_value(b),
        (ascii_upper(b) == 0x30) == (b == 0x30),
        (ascii_upper(b) == 0x78 || ascii_upper(b) == 0x58) == (b == 0x78 || b == 0x58),
{
}

proof fn lemma_upper_value(d: Seq<u8>)
    requires
        forall|i: int| 0 <= i < d.len() ==> is_hex_digit(#[trigger] d[i]),
    ensures
        hex_value(to_upper(d)) == hex_value(d),
    decreases d.len(),
{
    if d.len() > 0 {
        assert(to_upper(d).drop_last() =~= to_upper(d.drop_last()));
        lemma_upper_value(d.drop_last());
        lemma_upper_byte(d.last());
        assert(is_hex_digit(d[d.len() - 1]));
    }
}

/// Parsing ignores case: the prefix may be `0x` or `0X`, the digits upper or
/// lower case.
pub proof fn lemma_parse_hex_ignores_case(s: Seq<u8>)
    ensures
        parse_hex_spec(to_upper(s)) == parse_hex_spec(s),
{
    let u = to_upper(s);
    if s.len() >= 2 {
        lemma_upper_byte(s[0]);
        lemma_upper_byte(s[1]);
    }
    let d = strip_hex_prefix(s);
    let du = strip_hex_prefix(u);
    assert(du =~= to_upper(d));
    assert forall|i: int| 0 <= i < d.len() implies is_hex_digit(#[trigger] du[i]) == is_hex_digit(
        d[i],
    ) by {
        lemma_upper_byte(d[i]);
    }
    if forall|i: int| 0 <= i < d.len() ==> is_hex_digit(#[trigger] d[i]) {
        lemma_upper_value(d);
    } else {
        let i = choose|i: int| 0 <= i < d.len() && !is_hex_digit(#[trigger] d[i]);
        assert(!is_hex_digit(du[i]));
    }
}

/// A leading zero digit does not change what digits parse to.
pub proof fn lemma_parse_hex_leading_zero(t: Seq<u8>)
    requires
        t.len() > 0,
        forall|i: int| 0 <= i < t.len() ==> is_hex_digit(#[trigger] t[i]),
    ensures
        parse_hex_spec(seq![0x30u8] + t) == parse_hex_spec(t),
{
    let s = seq![0x30u8] + t;
    assert(is_hex_digit(t[0]));
    if t.len() >= 2 {
        assert(is_hex_digit(t[1]));
    }
    assert(strip_hex_prefix(s) == s);
    assert(strip_hex_prefix(t) == t);
    lemma_leading_zeros(1, t);
    assert(Seq::new(1, |i: int| 0x30u8) =~= seq![0x30u8]);
    assert forall|i: int| 0 <= i < s.len() implies is_hex_digit(#[trigger] s[i]) by {
        if i > 0 {
            assert(s[i] == t[i - 1]);
        }
    }
}

/// A value printed in hexadecimal without padding, in lower or upper case
/// (the `{:x}` and `{:X}` formats), parses back to itself.
pub proof fn lemma_hex_roundtrip_unpadded(v: usize)
    ensures
        parse_hex_spec(hex_digits(v as nat)) == Some(v),
        parse_hex_spec(to_upper(hex_digits(v as nat))) == Some(v),
{
    lemma_hex_digits(v as nat);
    let d = hex_digits(v as nat);
    if d.len() >= 2 {
        assert(is_hex_digit(d[1]));
    }
    assert(strip_hex_prefix(d) == d);
    lemma_parse_hex_ignores_case(d);
}

} // verus!
