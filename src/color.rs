use vstd::prelude::*;
use vstd::string::StringSliceAdditionalSpecFns;

verus! {

/// A color with four 8-bit channels; 255 is full intensity.
#[derive(Clone, Copy, Debug, PartialEq, Eq, Structural)]
pub struct Color {
    pub r: u8,
    pub g: u8,
    pub b: u8,
    pub a: u8,
}

impl Default for Color {
    fn default() -> (r: Color)
        ensures
            r == (Color { r: 255, g: 255, b: 255, a: 255 }),
    {
        Color { r: 255, g: 255, b: 255, a: 255 }
    }
}

#[derive(Clone, Copy, Debug, PartialEq, Eq, Structural)]
pub enum ColorError {
    /// The text is not 3, 4, 6 or 8 bytes long.
    InvalidLength,
    /// The text holds a byte that is not a hexadecimal digit.
    InvalidDigit,
}

/// The value of one hexadecimal digit, in either case.
pub open spec fn hex_value(b: u8) -> Option<u8> {
    if 48 <= b <= 57 {
        Some((b - 48) as u8)
    } else if 97 <= b <= 102 {
        Some((b - 87) as u8)
    } else if 65 <= b <= 70 {
        Some((b - 55) as u8)
    } else {
        None
    }
}

pub open spec fn all_hex(s: Seq<u8>) -> bool {
    forall|i: int| 0 <= i < s.len() ==> (#[trigger] hex_value(s[i])) is Some
}

/// Channel `k` of a short (one digit per channel) color: the digit scaled
/// so that `f` is full intensity.
pub open spec fn short_channel(s: Seq<u8>, k: int) -> u8 {
    (hex_value(s[k])->0 * 17) as u8
}

/// Channel `k` of a long (two digits per channel) color.
pub open spec fn long_channel(s: Seq<u8>, k: int) -> u8 {
    (hex_value(s[2 * k])->0 * 16 + hex_value(s[2 * k + 1])->0) as u8
}

/// What a color string denotes: `rgb`, `rgba`, `rrggbb` or `rrggbbaa` in
/// hexadecimal; alpha is full when it is not given.
pub open spec fn parse_spec(s: Seq<u8>) -> Result<Color, ColorError> {
    if !(s.len() == 3 || s.len() == 4 || s.len() == 6 || s.len() == 8) {
        Err(ColorError::InvalidLength)
    } else if !all_hex(s) {
        Err(ColorError::InvalidDigit)
    } else if s.len() <= 4 {
        Ok(
            Color {
                r: short_channel(s, 0),
                g: short_channel(s, 1),
                b: short_channel(s, 2),
                a: if s.len() == 4 {
                    short_channel(s, 3)
                } else {
                    255
                },
            },
        )
    } else {
        Ok(
            Color {
                r: long_channel(s, 0),
                g: long_channel(s, 1),
                b: long_channel(s, 2),
                a: if s.len() == 8 {
                    long_channel(s, 3)
                } else {
                    255
                },
            },
        )
    }
}

fn hex_digit(b: u8) -> (r: Option<u8>)
    ensures
        r == hex_value(b),
        r matches Some(v) ==> v < 16,
{
    if 48 <= b && b <= 57 {
        Some(b - 48)
    } else if 97 <= b && b <= 102 {
        Some(b - 87)
    } else if 65 <= b && b <= 70 {
        Some(b - 55)
    } else {
        None
    }
}

impl Color {
    /// Parses a color from its hexadecimal text form.
    pub fn parse(text: &str) -> (r: Result<Color, ColorError>)
        ensures
            r == parse_spec(text.spec_bytes()),
    {
        let bytes = text.as_bytes();
        let n = bytes.len();
        if !(n == 3 || n == 4 || n == 6 || n == 8) {
            return Err(ColorError::InvalidLength);
        }
        let mut digits: Vec<u8> = Vec::new();
        let mut i: usize = 0;
        while i < n
            invariant
                n == bytes@.len(),
                n == 3 || n == 4 || n == 6 || n == 8,
                bytes@ == text.spec_bytes(),
                i <= n,
                digits@.len() == i,
                forall|j: int| 0 <= j < i ==> hex_value(#[trigger] bytes@[j]) == Some(digits@[j]),
                forall|j: int| 0 <= j < i ==> #[trigger] digits@[j] < 16,
            decreases n - i,
        {
            match hex_digit(bytes[i]) {
                None => {
                    proof {
                        assert(hex_value(bytes@[i as int]) is None);
                        assert(!all_hex(bytes@));
                    }
                    return Err(ColorError::InvalidDigit);
                },
                Some(v) => {
                    digits.push(v);
                },
            }
            i = i + 1;
        }
        let ghost s = bytes@;
        assert(all_hex(s));
        if n <= 4 {
            let a = if n == 4 {
                digits[3] * 17
            } else {
                255
            };
            Ok(Color { r: digits[0] * 17, g: digits[1] * 17, b: digits[2] * 17, a })
        } else {
            let a = if n == 8 {
                digits[6] * 16 + digits[7]
            } else {
                255
            };
            Ok(
                Color {
                    r: digits[0] * 16 + digits[1],
                    g: digits[2] * 16 + digits[3],
                    b: digits[4] * 16 + digits[5],
                    a,
                },
            )
        }
    }
}

} // verus!
