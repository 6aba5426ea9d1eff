use vstd::prelude::*;

verus! {

// The window manager identifies a window by an address token: the two-byte
// marker "0x" followed by hexadecimal digits. The codec turns such a token
// into a stable 64-bit identifier by reading the digits in base 16.

pub open spec fn is_hex_digit(b: u8) -> bool {
    (48 <= b && b <= 57) || (97 <= b && b <= 102) || (65 <= b && b <= 70)
}

pub open spec fn hex_digit_value(b: u8) -> int {
    if 48 <= b && b <= 57 {
        b - 48
    } else if 97 <= b && b <= 102 {
        b - 97 + 10
    } else {
        b - 65 + 10
    }
}

/// The number that a sequence of hexadecimal digits denotes, most significant
/// digit first.
pub open spec fn hex_value(s: Seq<u8>) -> int
    decreases s.len(),
{
    if s.len() == 0 {
        0
    } else {
        hex_value(s.drop_last()) * 16 + hex_digit_value(s.last())
    }
}

pub open spec fn all_hex_digits(s: Seq<u8>) -> bool {
    forall|i: int| 0 <= i < s.len() ==> is_hex_digit(#[trigger] s[i])
}

/// The digits of an address token: everything after the "0x" marker.
pub open spec fn digits_of(addr: Seq<u8>) -> Seq<u8> {
    addr.subrange(2, addr.len() as int)
}

pub const U64_RADIX_BOUND: u128 = 0x1_0000_0000_0000_0000;

/// A well-formed address token: the "0x" marker, then at least one
/// hexadecimal digit, denoting a value that fits in 64 bits. The window
/// manager guarantees this shape for every address it hands out.
pub open spec fn valid_address(addr: Seq<u8>) -> bool {
    &&& addr.len() >= 3
    &&& addr[0] == 48
    &&& addr[1] == 120
    &&& all_hex_digits(digits_of(addr))
    &&& hex_value(digits_of(addr)) < U64_RADIX_BOUND
}

/// The stable identifier that a well-formed address token denotes.
pub open spec fn address_id(addr: Seq<u8>) -> int {
    hex_value(digits_of(addr))
}

proof fn lemma_hex_value_nonneg(s: Seq<u8>)
    requires
        all_hex_digits(s),
    ensures
        hex_value(s) >= 0,
    decreases s.len(),
{
    if s.len() > 0 {
        assert(all_hex_digits(s.drop_last()));
        lemma_hex_value_nonneg(s.drop_last());
    }
}

/// Reading one more digit multiplies the value so far by 16 and adds the digit.
proof fn lemma_hex_value_push(s: Seq<u8>, b: u8)
    ensures
        hex_value(s.push(b)) == hex_value(s) * 16 + hex_digit_value(b),
{
    assert(s.push(b).drop_last() =~= s);
    assert(s.push(b).last() == b);
}

/// A prefix of a digit string never denotes more than the whole string.
proof fn lemma_hex_value_take_le(s: Seq<u8>, i: int)
    requires
        all_hex_digits(s),
        0 <= i <= s.len(),
    ensures
        0 <= hex_value(s.take(i)) <= hex_value(s),
    decreases s.len() - i,
{
    assert(all_hex_digits(s.take(i)));
    lemma_hex_value_nonneg(s.take(i));
    if i < s.len() {
        lemma_hex_value_take_le(s, i + 1);
        assert(s.take(i + 1) =~= s.take(i).push(s[i]));
        lemma_hex_value_push(s.take(i), s[i]);
    } else {
        assert(s.take(i) =~= s);
    }
}

/// Reads an address token as a 64-bit identifier. Returns `None` exactly when
/// the token is malformed: marker missing, no digits, a non-hexadecimal byte,
/// or a value too large for 64 bits.
pub fn parse_address(addr: &Vec<u8>) -> (r: Option<u64>)
    ensures
        match r {
            Some(v) => valid_address(addr@) && v == address_id(addr@),
            None => !valid_address(addr@),
        },
{
    if addr.len() < 3 {
        return None;
    }
    if addr[0] != 48 || addr[1] != 120 {
        return None;
    }
    let ghost digits: Seq<u8> = digits_of(addr@);
    let mut acc: u64 = 0;
    let mut i: usize = 2;
    while i < addr.len()
        invariant
            2 <= i <= addr@.len(),
            addr@.len() >= 3,
            all_hex_digits(digits.take(i - 2)),
            acc == hex_value(digits.take(i - 2)),
            digits == digits_of(addr@),
        decreases addr@.len() - i,
    {
        let b = addr[i];
        let d: u64 = if 48 <= b && b <= 57 {
            (b - 48) as u64
        } else if 97 <= b && b <= 102 {
            (b - 97) as u64 + 10
        } else if 65 <= b && b <= 70 {
            (b - 65) as u64 + 10
        } else {
            // A byte that is no hexadecimal digit makes the token malformed.
            assert(digits[i - 2] == b);
            return None;
        };
        assert(digits[i - 2] == b && is_hex_digit(b) && d == hex_digit_value(b));
        proof {
            assert(digits.take(i - 2 + 1) =~= digits.take(i - 2).push(digits[i - 2]));
            lemma_hex_value_push(digits.take(i - 2), b);
            assert(all_hex_digits(digits.take(i - 2 + 1)));
        }
        if acc >= 0x1000_0000_0000_0000 {
            // Sixteen digits are already read and another follows: the value
            // cannot fit in 64 bits.
            proof {
                if all_hex_digits(digits) {
                    lemma_hex_value_take_le(digits, i - 2 + 1);
                }
            }
            return None;
        }
        acc = acc * 16 + d;
        i = i + 1;
    }
    proof {
        assert(digits.take(i - 2) =~= digits);
    }
    Some(acc)
}

/// The stable identifier of a well-formed address token. The window manager's
/// contract makes malformed tokens impossible, so callers establish
/// `valid_address` before calling; a malformed token is a fatal defect, not an
/// error path of the library.
pub fn address_to_u64(addr: &Vec<u8>) -> (r: u64)
    requires
        valid_address(addr@),
    ensures
        r == address_id(addr@),
{
    parse_address(addr).unwrap()
}

/// Encoding is stable: any two readings of one address token yield the same
/// identifier, so an identifier issued at search time still names the same
/// window at selection time, as long as the window keeps its address.
pub proof fn lemma_encode_stable(addr: Seq<u8>, r1: u64, r2: u64)
    requires
        valid_address(addr),
        r1 == address_id(addr),
        r2 == address_id(addr),
    ensures
        r1 == r2,
{
}

} // verus!
