//! Hex colour strings (`"#RRGGBB"`, `"#RRGGBBAA"`) parsed into 8-bit channels.
//!
//! The parsing works on the UTF-8 bytes of the string: leading `#`
//! characters are dropped, the remaining text must be 6 (or 8) bytes long,
//! and each channel is a pair of bytes that must both be hex digits. Any other
//! input, non-ASCII text included, is answered with an error.

use vstd::prelude::*;
use vstd::string::*;

verus! {

/// Error encountered when parsing a hex color string.
#[derive(Debug, Clone, Copy, PartialEq, Eq, Structural)]
pub enum ParseHexError {
    InvalidSize,
    InvalidRed,
    InvalidGreen,
    InvalidBlue,
    InvalidAlpha,
}

impl ParseHexError {
    /// The text this error displays.
    pub open spec fn message(&self) -> Seq<char> {
        match self {
            ParseHexError::InvalidSize => "Invalid size"@,
            ParseHexError::InvalidRed => "Invalid red component"@,
            ParseHexError::InvalidGreen => "Invalid green component"@,
            ParseHexError::InvalidBlue => "Invalid blue component"@,
            ParseHexError::InvalidAlpha => "Invalid alpha component"@,
        }
    }

    /// Renders the error as text.
    pub fn to_string(&self) -> (s: String)
        ensures
            s@ == self.message(),
    {
        match self {
            ParseHexError::InvalidSize => String::from_str("Invalid size"),
            ParseHexError::InvalidRed => String::from_str("Invalid red component"),
            ParseHexError::InvalidGreen => String::from_str("Invalid green component"),
            ParseHexError::InvalidBlue => String::from_str("Invalid blue component"),
            ParseHexError::InvalidAlpha => String::from_str("Invalid alpha component"),
        }
    }
}

/// An RGB colour with 8-bit channels, as written in a hex string.
#[derive(Debug, Clone, Copy, PartialEq, Eq, Structural)]
pub struct Rgb8 {
    pub red: u8,
    pub green: u8,
    pub blue: u8,
}

/// An RGBA colour with 8-bit channels, as written in a hex string.
#[derive(Debug, Clone, Copy, PartialEq, Eq, Structural)]
pub struct Rgba8 {
    pub color: Rgb8,
    pub alpha: u8,
}

/// The value of one base-16 digit, if `b` is one (`0-9`, `a-f`, `A-F`).
pub open spec fn hex_digit(b: u8) -> Option<u8> {
    if 48 <= b <= 57 {
        Some((b - 48) as u8)
    } else if 97 <= b <= 102 {
        Some((b - 87) as u8)
    } else if 65 <= b <= 70 {
        Some((b - 55) as u8)
    } else {
        None
    }
}

/// Two bytes read as a base-16 number: both must be hex digits.
pub open spec fn hex_pair(hi: u8, lo: u8) -> Option<u8> {
    match (hex_digit(hi), hex_digit(lo)) {
        (Some(h), Some(l)) => Some((16 * h + l) as u8),
        _ => None,
    }
}

/// The bytes left after dropping every leading `#`.
pub open spec fn trim_hashes(s: Seq<u8>) -> Seq<u8>
    decreases s.len(),
{
    if s.len() > 0 && s[0] == 35 {
        trim_hashes(s.drop_first())
    } else {
        s
    }
}


/// The channel held by bytes `i` and `i + 1`.
pub open spec fn channel(s: Seq<u8>, i: int) -> Option<u8> {
    hex_pair(s[i], s[i + 1])
}

/// Parsing six hex bytes (after the `#`s are dropped) into an RGB colour.
pub open spec fn rgb_from_hex(h: Seq<u8>) -> Result<Rgb8, ParseHexError> {
    if h.len() != 6 {
        Err(ParseHexError::InvalidSize)
    } else if channel(h, 0) is None {
        Err(ParseHexError::InvalidRed)
    } else if channel(h, 2) is None {
        Err(ParseHexError::InvalidGreen)
    } else if channel(h, 4) is None {
        Err(ParseHexError::InvalidBlue)
    } else {
        Ok(Rgb8 { red: channel(h, 0)->0, green: channel(h, 2)->0, blue: channel(h, 4)->0 })
    }
}


/// Parsing eight hex bytes (after the `#`s are dropped) into an RGBA colour.
/// The alpha channel is read first.
pub open spec fn rgba_from_hex(h: Seq<u8>) -> Result<Rgba8, ParseHexError> {
    if h.len() != 8 {
        Err(ParseHexError::InvalidSize)
    } else if channel(h, 6) is None {
        Err(ParseHexError::InvalidAlpha)
    } else if channel(h, 0) is None {
        Err(ParseHexError::InvalidRed)
    } else if channel(h, 2) is None {
        Err(ParseHexError::InvalidGreen)
    } else if channel(h, 4) is None {
        Err(ParseHexError::InvalidBlue)
    } else {
        Ok(
            Rgba8 {
                color: Rgb8 { red: channel(h, 0)->0, green: channel(h, 2)->0, blue: channel(h, 4)->0 },
                alpha: channel(h, 6)->0,
            },
        )
    }
}


/// An eight-digit parse, falling back to a six-digit one with an opaque alpha.
pub open spec fn rgba_optional_alpha_from_hex(h: Seq<u8>) -> Result<Rgba8, ParseHexError> {
    match rgba_from_hex(h) {
        Ok(c) => Ok(c),
        Err(_) => match rgb_from_hex(h) {
            Ok(c) => Ok(Rgba8 { color: c, alpha: 255 }),
            Err(e) => Err(e),
        },
    }
}


/// A six-digit parse succeeds exactly on six hex digits, and reads red from
/// the first two, green from the next two and blue from the last two, each
/// pair as a two-digit base-16 number.
pub proof fn lemma_rgb_reads_red_green_blue_in_order(h: Seq<u8>)
    ensures
        (rgb_from_hex(h) is Ok) == (h.len() == 6 && forall|i: int| 0 <= i < 6 ==> #[trigger] hex_digit(h[i]) is Some),
        rgb_from_hex(h) is Ok ==> rgb_from_hex(h) == Ok::<Rgb8, ParseHexError>(
            Rgb8 {
                red: (16 * hex_digit(h[0])->0 + hex_digit(h[1])->0) as u8,
                green: (16 * hex_digit(h[2])->0 + hex_digit(h[3])->0) as u8,
                blue: (16 * hex_digit(h[4])->0 + hex_digit(h[5])->0) as u8,
            },
        ),
{
    if h.len() == 6 {
        if forall|i: int| 0 <= i < 6 ==> #[trigger] hex_digit(h[i]) is Some {
            assert(hex_digit(h[0]) is Some && hex_digit(h[1]) is Some);
            assert(hex_digit(h[2]) is Some && hex_digit(h[3]) is Some);
            assert(hex_digit(h[4]) is Some && hex_digit(h[5]) is Some);
        }
        if rgb_from_hex(h) is Ok {
            assert forall|i: int| 0 <= i < 6 implies #[trigger] hex_digit(h[i]) is Some by {
                assert(channel(h, 0) is Some && channel(h, 2) is Some && channel(h, 4) is Some);
            }
        }
    }
}

/// An eight-digit parse succeeds exactly on eight hex digits; its colour is
/// what the six-digit parse reads from the first six digits (red, green,
/// blue in that order), and its alpha is the last two digits as a base-16
/// number.
pub proof fn lemma_rgba_is_rgb_then_alpha(h: Seq<u8>)
    ensures
        (rgba_from_hex(h) is Ok) == (h.len() == 8 && forall|i: int| 0 <= i < 8 ==> #[trigger] hex_digit(h[i]) is Some),
        rgba_from_hex(h) is Ok ==> rgb_from_hex(h.take(6)) == Ok::<Rgb8, ParseHexError>(rgba_from_hex(h)->Ok_0.color),
        rgba_from_hex(h) is Ok ==> rgba_from_hex(h)->Ok_0.alpha == (16 * hex_digit(h[6])->0 + hex_digit(h[7])->0) as u8,
{
    lemma_rgb_reads_red_green_blue_in_order(h.take(6));
    if h.len() == 8 {
        let t = h.take(6);
        assert(forall|i: int| 0 <= i < 6 ==> t[i] == h[i]);
        if forall|i: int| 0 <= i < 8 ==> #[trigger] hex_digit(h[i]) is Some {
            assert(hex_digit(h[0]) is Some && hex_digit(h[1]) is Some);
            assert(hex_digit(h[2]) is Some && hex_digit(h[3]) is Some);
            assert(hex_digit(h[4]) is Some && hex_digit(h[5]) is Some);
            assert(hex_digit(h[6]) is Some && hex_digit(h[7]) is Some);
        }
        if rgba_from_hex(h) is Ok {
            assert forall|i: int| 0 <= i < 8 implies #[trigger] hex_digit(h[i]) is Some by {
                assert(channel(h, 0) is Some && channel(h, 2) is Some && channel(h, 4) is Some);
                assert(channel(h, 6) is Some);
            }
            assert(forall|i: int| 0 <= i < 6 ==> #[trigger] hex_digit(t[i]) is Some);
        }
    }
}

/// Without an alpha channel the optional-alpha parse gives the six-digit
/// colour, fully opaque; with one it gives the eight-digit parse.
pub proof fn lemma_optional_alpha_is_opaque_rgb(h: Seq<u8>)
    ensures
        rgb_from_hex(h) is Ok ==> rgba_optional_alpha_from_hex(h) == Ok::<Rgba8, ParseHexError>(
            Rgba8 { color: rgb_from_hex(h)->Ok_0, alpha: 255 },
        ),
        rgba_from_hex(h) is Ok ==> rgba_optional_alpha_from_hex(h) == rgba_from_hex(h),
{
    lemma_rgb_reads_red_green_blue_in_order(h);
    lemma_rgba_is_rgb_then_alpha(h);
}

fn hex_digit_value(b: u8) -> (r: Option<u8>)
    ensures
        r == hex_digit(b),
{
    if 48 <= b && b <= 57 {
        Some(b - 48)
    } else if 97 <= b && b <= 102 {
        Some(b - 87)
    } else if 65 <= b && b <= 70 {
        Some(b - 55)
    } else {
        None
    }
}

fn hex_pair_value(hi: u8, lo: u8) -> (r: Option<u8>)
    ensures
        r == hex_pair(hi, lo),
{
    match (hex_digit_value(hi), hex_digit_value(lo)) {
        (Some(h), Some(l)) => Some(16 * h + l),
        _ => None,
    }
}

proof fn lemma_trim_hashes_skip(s: Seq<u8>, k: int)
    requires
        0 <= k <= s.len(),
        forall|j: int| 0 <= j < k ==> s[j] == 35,
    ensures
        trim_hashes(s) == trim_hashes(s.skip(k)),
    decreases k,
{
    if k > 0 {
        assert(s.skip(1).skip(k - 1) =~= s.skip(k));
        lemma_trim_hashes_skip(s.drop_first(), k - 1);
        assert(s.drop_first() =~= s.skip(1));
    } else {
        assert(s.skip(0) =~= s);
    }
}

/// The number of leading `#` bytes.
fn leading_hashes(b: &[u8]) -> (k: usize)
    ensures
        k <= b@.len(),
        trim_hashes(b@) == b@.skip(k as int),
{
    let mut k: usize = 0;
    while k < b.len() && b[k] == 35
        invariant
            k <= b@.len(),
            forall|j: int| 0 <= j < k ==> b@[j] == 35,
        decreases b@.len() - k,
    {
        k = k + 1;
    }
    proof {
        lemma_trim_hashes_skip(b@, k as int);
        let r = b@.skip(k as int);
        if r.len() > 0 {
            assert(r[0] == b@[k as int]);
        }
    }
    k
}


fn channel_at(b: &[u8], k: usize, i: usize) -> (r: Option<u8>)
    requires
        k + i + 1 < b.len(),
    ensures
        r == channel(b@.skip(k as int), i as int),
{
    hex_pair_value(b[k + i], b[k + i + 1])
}

impl Rgb8 {

    /// Parses a 6-digit hex color string (e.g. "#FF0000" or "FF0000").
    pub fn parse_hex(hex: &str) -> (r: Result<Rgb8, ParseHexError>)
        ensures
            r == rgb_from_hex(trim_hashes(hex.spec_bytes())),
    {
        let b = hex.as_bytes();
        let k = leading_hashes(b);
        if b.len() - k != 6 {
            return Err(ParseHexError::InvalidSize);
        }
        let red = match channel_at(b, k, 0) {
            Some(v) => v,
            None => return Err(ParseHexError::InvalidRed),
        };
        let green = match channel_at(b, k, 2) {
            Some(v) => v,
            None => return Err(ParseHexError::InvalidGreen),
        };
        let blue = match channel_at(b, k, 4) {
            Some(v) => v,
            None => return Err(ParseHexError::InvalidBlue),
        };
        Ok(Rgb8 { red, green, blue })
    }
}

impl Rgba8 {

    /// Parses an 8-digit hex color string (e.g. "#FF000077" or "FF000077").
    pub fn parse_hex(hex: &str) -> (r: Result<Rgba8, ParseHexError>)
        ensures
            r == rgba_from_hex(trim_hashes(hex.spec_bytes())),
    {
        let b = hex.as_bytes();
        let k = leading_hashes(b);
        if b.len() - k != 8 {
            return Err(ParseHexError::InvalidSize);
        }
        let alpha = match channel_at(b, k, 6) {
            Some(v) => v,
            None => return Err(ParseHexError::InvalidAlpha),
        };
        let red = match channel_at(b, k, 0) {
            Some(v) => v,
            None => return Err(ParseHexError::InvalidRed),
        };
        let green = match channel_at(b, k, 2) {
            Some(v) => v,
            None => return Err(ParseHexError::InvalidGreen),
        };
        let blue = match channel_at(b, k, 4) {
            Some(v) => v,
            None => return Err(ParseHexError::InvalidBlue),
        };
        Ok(Rgba8 { color: Rgb8 { red, green, blue }, alpha })
    }


    /// Parses a hex color string with optional alpha (e.g. "#FF0000" or "#FF000077").
    /// Without an alpha channel the colour is fully opaque.
    pub fn parse_hex_with_optional_alpha(hex: &str) -> (r: Result<Rgba8, ParseHexError>)
        ensures
            r == rgba_optional_alpha_from_hex(trim_hashes(hex.spec_bytes())),
    {
        match Rgba8::parse_hex(hex) {
            Ok(c) => Ok(c),
            Err(_) => match Rgb8::parse_hex(hex) {
                Ok(c) => Ok(Rgba8 { color: c, alpha: 255 }),
                Err(e) => Err(e),
            },
        }
    }
}

} // verus!
