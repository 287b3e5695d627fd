//! Hex color parsing for the user's theme entries. The channels are kept as
//! raw bytes; turning them into the renderer's color type is the
//! application shell's concern.

use vstd::prelude::*;

use crate::error::Error;
use vstd::string::StrSliceExecFns;

verus! {

/// An RGB color with an optional raw alpha byte.
#[derive(Debug, Clone, Copy, PartialEq, Eq, Structural)]
pub struct WColor {
    pub r: u8,
    pub g: u8,
    pub b: u8,
    pub alpha: Option<u8>,
}

impl WColor {
    /// The color with the given channels and no alpha.
    pub fn from(rgb: [u8; 3]) -> (r: WColor)
        ensures
            r.r == rgb@[0],
            r.g == rgb@[1],
            r.b == rgb@[2],
            r.alpha is None,
    {
        WColor { r: rgb[0], g: rgb[1], b: rgb[2], alpha: None }
    }
}

/// The value of one hex digit, if the character is one.
pub open spec fn hex_digit(c: char) -> Option<int> {
    let v = c as int;
    if 48 <= v <= 57 {
        Some(v - 48)
    } else if 97 <= v <= 102 {
        Some(v - 87)
    } else if 65 <= v <= 70 {
        Some(v - 55)
    } else {
        None
    }
}

/// The value of the two hex digits at `i`, if both are digits.
pub open spec fn hex_pair(s: Seq<char>, i: int) -> Option<int>
    recommends
        0 <= i,
        i + 2 <= s.len(),
{
    match (hex_digit(s[i]), hex_digit(s[i + 1])) {
        (Some(hi), Some(lo)) => Some(16 * hi + lo),
        _ => None,
    }
}

/// The hex text with one leading `#` removed, where present.
pub open spec fn stripped(s: Seq<char>) -> Seq<char> {
    if s.len() > 0 && s[0] == '#' {
        s.drop_first()
    } else {
        s
    }
}

/// The exec value of one hex digit.
fn hex_digit_x(c: char) -> (r: Option<u8>)
    ensures
        match r {
            Some(v) => hex_digit(c) == Some(v as int),
            None => hex_digit(c) is None,
        },
{
    let v = c as u32;
    if 48 <= v && v <= 57 {
        Some((v - 48) as u8)
    } else if 97 <= v && v <= 102 {
        Some((v - 87) as u8)
    } else if 65 <= v && v <= 70 {
        Some((v - 55) as u8)
    } else {
        None
    }
}

/// The exec value of the two hex digits at `i`.
fn hex_pair_x(s: &str, i: usize) -> (r: Option<u8>)
    requires
        i + 2 <= s@.len(),
    ensures
        match r {
            Some(v) => hex_pair(s@, i as int) == Some(v as int),
            None => hex_pair(s@, i as int) is None,
        },
{
    let n: usize = s.unicode_len();
    match (hex_digit_x(s.get_char(i)), hex_digit_x(s.get_char(i + 1))) {
        (Some(hi), Some(lo)) => Some(16 * hi + lo),
        _ => None,
    }
}

/// Parse a hex color: an optional leading `#`, six hex digits for the
/// channels, and optionally two more whose value becomes the alpha byte —
/// with a malformed alpha falling back to one. Succeeds exactly where the
/// stripped text is six to eight characters long and the three channel
/// pairs are hex digits.
pub fn hex_to_rgb(hex_color: &str) -> (res: Result<WColor, Error>)
    ensures
        ({
            let h = stripped(hex_color@);
            match res {
                Ok(c) => 6 <= h.len() <= 8 && hex_pair(h, 0) == Some(c.r as int) && hex_pair(h, 2)
                    == Some(c.g as int) && hex_pair(h, 4) == Some(c.b as int) && c.alpha == (
                if h.len() == 8 {
                    match hex_pair(h, 6) {
                        Some(v) => Some(v as u8),
                        None => Some(1u8),
                    }
                } else {
                    None
                }),
                Err(_) => !(6 <= h.len() <= 8) || hex_pair(h, 0) is None || hex_pair(h, 2) is None
                    || hex_pair(h, 4) is None,
            }
        }),
{
    let n: usize = hex_color.unicode_len();
    let off: usize = if n > 0 && hex_color.get_char(0) == '#' {
        1
    } else {
        0
    };
    let hlen: usize = n - off;
    proof {
        let h = stripped(hex_color@);
        assert(h.len() == hlen);
        assert forall|k: int| 0 <= k < h.len() implies h[k] == hex_color@[off as int + k] by {}
    }
    if hlen < 6 || hlen > 8 {
        return Err(Error::new("failed to parse color value"));
    }
    let pr = hex_pair_x(hex_color, off);
    let pg = hex_pair_x(hex_color, off + 2);
    let pb = hex_pair_x(hex_color, off + 4);
    proof {
        let h = stripped(hex_color@);
        assert(hex_pair(h, 0) == hex_pair(hex_color@, off as int));
        assert(hex_pair(h, 2) == hex_pair(hex_color@, off as int + 2));
        assert(hex_pair(h, 4) == hex_pair(hex_color@, off as int + 4));
        if h.len() == 8 {
            assert(hex_pair(h, 6) == hex_pair(hex_color@, off as int + 6));
        }
    }
    match (pr, pg, pb) {
        (Some(r), Some(g), Some(b)) => {
            let alpha: Option<u8> = if hlen == 8 {
                match hex_pair_x(hex_color, off + 6) {
                    Some(a) => Some(a),
                    None => Some(1),
                }
            } else {
                None
            };
            Ok(WColor { r, g, b, alpha })
        },
        _ => Err(Error::new("failed to parse color value")),
    }
}

} // verus!
