use vstd::prelude::*;

verus! {

/// Why a hexadecimal number could not be read.
#[derive(Debug, Clone, Copy, PartialEq, Eq, Structural)]
pub enum HexParseError {
    /// The text is empty.
    Empty,
    /// A character is not a hexadecimal digit (or a lone `+` sign).
    InvalidDigit,
    /// The number does not fit in the target type.
    Overflow,
}

/// Value of a hexadecimal digit, either case; `None` for any other character.
pub open spec fn hex_digit_value(c: char) -> Option<nat> {
    if '0' <= c && c <= '9' {
        Some((c as nat - '0' as nat) as nat)
    } else if 'a' <= c && c <= 'f' {
        Some((c as nat - 'a' as nat + 10) as nat)
    } else if 'A' <= c && c <= 'F' {
        Some((c as nat - 'A' as nat + 10) as nat)
    } else {
        None
    }
}

/// Reads `digits` left to right as a hexadecimal number that may not exceed `max`:
/// the first character that is not a digit, or the first digit that takes the value
/// past `max`, decides the error.
pub open spec fn hex_scan(digits: Seq<char>, acc: nat, max: nat) -> Result<nat, HexParseError>
    decreases digits.len(),
{
    if digits.len() == 0 {
        Ok(acc)
    } else {
        match hex_digit_value(digits[0]) {
            None => Err(HexParseError::InvalidDigit),
            Some(d) => if acc * 16 + d > max {
                Err(HexParseError::Overflow)
            } else {
                hex_scan(digits.drop_first(), acc * 16 + d, max)
            },
        }
    }
}

/// An unsigned hexadecimal number with an optional leading `+`, no larger than `max`.
pub open spec fn parse_hex(s: Seq<char>, max: nat) -> Result<nat, HexParseError> {
    if s.len() == 0 {
        Err(HexParseError::Empty)
    } else if s[0] == '+' {
        if s.len() == 1 {
            Err(HexParseError::InvalidDigit)
        } else {
            hex_scan(s.drop_first(), 0, max)
        }
    } else {
        hex_scan(s, 0, max)
    }
}

fn digit_value(c: char) -> (r: Option<u8>)
    ensures
        match hex_digit_value(c) {
            Some(d) => r == Some(d as u8) && d < 16,
            None => r.is_none(),
        },
{
    if '0' <= c && c <= '9' {
        Some(((c as u32) - ('0' as u32)) as u8)
    } else if 'a' <= c && c <= 'f' {
        Some(((c as u32) - ('a' as u32) + 10) as u8)
    } else if 'A' <= c && c <= 'F' {
        Some(((c as u32) - ('A' as u32) + 10) as u8)
    } else {
        None
    }
}

/// Reads `s` as a hexadecimal number no larger than `max`.
fn parse_hex_bounded(s: &str, max: u32) -> (r: Result<u32, HexParseError>)
    requires
        max >= 15,
    ensures
        parse_hex(s@, max as nat) is Ok ==> parse_hex(s@, max as nat)->Ok_0 <= max,
        match parse_hex(s@, max as nat) {
            Ok(v) => r == Ok::<u32, HexParseError>(v as u32),
            Err(e) => r == Err::<u32, HexParseError>(e),
        },
{
    let n = s.unicode_len();
    if n == 0 {
        return Err(HexParseError::Empty);
    }
    let mut i: usize = 0;
    if s.get_char(0) == '+' {
        if n == 1 {
            return Err(HexParseError::InvalidDigit);
        }
        i = 1;
    }
    let ghost start = i as int;
    let mut acc: u32 = 0;
    assert(parse_hex(s@, max as nat) == hex_scan(s@.skip(start), 0, max as nat)) by {
        assert(s@.skip(0) =~= s@);
        assert(s@.drop_first() =~= s@.skip(1));
    }
    while i < n
        invariant
            start <= i <= n,
            n == s@.len(),
            acc <= max,
            max >= 15,
            parse_hex(s@, max as nat) == hex_scan(s@.skip(i as int), acc as nat, max as nat),
        decreases n - i,
    {
        let c = s.get_char(i);
        let ghost rest = s@.skip(i as int);
        assert(rest[0] == c);
        assert(rest.drop_first() =~= s@.skip(i + 1));
        match digit_value(c) {
            None => {
                return Err(HexParseError::InvalidDigit);
            },
            Some(d) => {
                if acc > (max - d as u32) / 16 {
                    assert(acc * 16 + d > max) by (nonlinear_arith)
                        requires
                            acc > (max - d as u32) / 16,
                            d <= max,
                    ;
                    return Err(HexParseError::Overflow);
                }
                assert(acc * 16 + d <= max) by (nonlinear_arith)
                    requires
                        acc <= (max - d as u32) / 16,
                        d < 16,
                ;
                acc = acc * 16 + d as u32;
            },
        }
        i = i + 1;
    }
    assert(s@.skip(n as int).len() == 0);
    Ok(acc)
}

/// Reads a byte written in hexadecimal, such as `F9`.
pub fn hex8(s: &str) -> (r: Result<u8, HexParseError>)
    ensures
        match parse_hex(s@, 0xFF) {
            Ok(v) => r == Ok::<u8, HexParseError>(v as u8),
            Err(e) => r == Err::<u8, HexParseError>(e),
        },
{
    match parse_hex_bounded(s, 0xFF) {
        Ok(v) => Ok(v as u8),
        Err(e) => Err(e),
    }
}

/// Reads a 32-bit number written in hexadecimal, such as `FFF1`.
pub fn hex32(s: &str) -> (r: Result<u32, HexParseError>)
    ensures
        match parse_hex(s@, 0xFFFF_FFFF) {
            Ok(v) => r == Ok::<u32, HexParseError>(v as u32),
            Err(e) => r == Err::<u32, HexParseError>(e),
        },
{
    parse_hex_bounded(s, 0xFFFF_FFFF)
}

} // verus!
