//! What the editor is set up with besides its key bindings: the size of
//! the preview, the colours of the palette, and where the cursor starts.

use vstd::prelude::*;
use vstd::string::StringSliceAdditionalSpecFns;
use crate::buffer::TextPosition;
use crate::text::{chars_of, find_char, first_mark, number_of, parse_number};

verus! {

/// Width and height of the preview, in pixels.
#[derive(Debug, Clone, Copy, PartialEq, Eq, Structural)]
pub struct FrameSize {
    pub width: usize,
    pub height: usize,
}

/// A colour with its opacity.
#[derive(Debug, Clone, Copy, PartialEq, Eq, Structural)]
pub struct Color {
    pub r: u8,
    pub g: u8,
    pub b: u8,
    pub a: u8,
}

/// The colour of each character that can be drawn.
#[derive(Debug)]
pub struct Palette {
    /// Characters with their colours. Of two entries for one character
    /// the first counts.
    pub colors: Vec<(char, Color)>,
}

impl Color {
    /// An opaque colour.
    pub fn rgb(r: u8, g: u8, b: u8) -> (c: Self)
        ensures
            c == (Color { r, g, b, a: 255 }),
    {
        Color::rgba(r, g, b, 255)
    }

    /// A colour with opacity `a`.
    pub fn rgba(r: u8, g: u8, b: u8, a: u8) -> (c: Self)
        ensures
            c == (Color { r, g, b, a }),
    {
        Color { r, g, b, a }
    }
}

/// The colour of `c` among `colors`, looking from index `i` on.
pub open spec fn color_of(colors: Seq<(char, Color)>, c: char, i: int) -> Option<Color>
    decreases colors.len() - i,
{
    if i >= colors.len() {
        None
    } else if colors[i].0 == c {
        Some(colors[i].1)
    } else {
        color_of(colors, c, i + 1)
    }
}

impl Palette {
    /// The colour of `c`, if the palette has one for it.
    pub fn get(&self, c: char) -> (color: Option<Color>)
        ensures
            color == color_of(self.colors@, c, 0),
    {
        let mut i: usize = 0;
        while i < self.colors.len()
            invariant
                i <= self.colors.len(),
                color_of(self.colors@, c, 0) == color_of(self.colors@, c, i as int),
            decreases self.colors.len() - i,
        {
            if self.colors[i].0 == c {
                return Some(self.colors[i].1);
            }
            i += 1;
        }
        None
    }
}

/// Why a text is not a pair of numbers.
#[derive(Debug, Clone, Copy, PartialEq, Eq, Structural)]
pub enum PairError {
    /// The mark between the two numbers is missing.
    Format,
    /// What stands before the mark is not a number that is accepted.
    First,
    /// What stands after the mark is not a number that is accepted.
    Second,
}

/// The two numbers that `s` writes with `mark` between them. The first
/// `mark` parts them.
pub open spec fn pair_of(s: Seq<char>, mark: char) -> Result<(usize, usize), PairError> {
    match first_mark(s, mark, 0) {
        None => Err(PairError::Format),
        Some(i) => match number_of(s.subrange(0, i)) {
            None => Err(PairError::First),
            Some(first) => match number_of(s.subrange(i + 1, s.len() as int)) {
                None => Err(PairError::Second),
                Some(second) => Ok((first, second)),
            },
        },
    }
}

proof fn lemma_first_mark_range(s: Seq<char>, mark: char, i: int)
    requires
        0 <= i,
    ensures
        first_mark(s, mark, i) matches Some(k) ==> i <= k < s.len(),
    decreases s.len() - i,
{
    if i < s.len() && s[i] != mark {
        lemma_first_mark_range(s, mark, i + 1);
    }
}

/// Reads two numbers with `mark` between them.
fn parse_pair(s: &str, mark: char) -> (r: Result<(usize, usize), PairError>)
    ensures
        r == pair_of(s@, mark),
{
    let chars = chars_of(s);
    let at = match find_char(&chars, mark) {
        Some(at) => at,
        None => {
            return Err(PairError::Format);
        },
    };
    let first = match parse_number(&chars, 0, at) {
        Some(n) => n,
        None => {
            return Err(PairError::First);
        },
    };
    let second = match parse_number(&chars, at + 1, chars.len()) {
        Some(n) => n,
        None => {
            return Err(PairError::Second);
        },
    };
    Ok((first, second))
}

impl FrameSize {
    /// Reads a size written as `WIDTHxHEIGHT`.
    pub fn from_str(s: &str) -> (r: Result<FrameSize, PairError>)
        ensures
            match r {
                Ok(size) => pair_of(s@, 'x') == Ok::<(usize, usize), PairError>((size.width, size.height)),
                Err(e) => pair_of(s@, 'x') == Err::<(usize, usize), PairError>(e),
            },
    {
        match parse_pair(s, 'x') {
            Ok((width, height)) => Ok(FrameSize { width, height }),
            Err(e) => Err(e),
        }
    }
}

/// The position that `s` writes as `ROW:COLUMN`, both counted from one.
pub open spec fn position_of(s: Seq<char>) -> Result<TextPosition, PairError> {
    match pair_of(s, ':') {
        Err(e) => Err(e),
        Ok((row, col)) => if row == 0 {
            Err(PairError::First)
        } else if col == 0 {
            Err(PairError::Second)
        } else {
            Ok(TextPosition { row: (row - 1) as usize, col: (col - 1) as usize })
        },
    }
}

impl TextPosition {
    /// Reads a position written as `ROW:COLUMN`, both counted from one.
    pub fn from_str(s: &str) -> (r: Result<TextPosition, PairError>)
        ensures
            r == position_of(s@),
    {
        match parse_pair(s, ':') {
            Err(e) => Err(e),
            Ok((row, col)) => if row == 0 {
                Err(PairError::First)
            } else if col == 0 {
                Err(PairError::Second)
            } else {
                Ok(TextPosition { row: row - 1, col: col - 1 })
            },
        }
    }
}

/// The value of a hexadecimal digit.
pub open spec fn hex_value(b: u8) -> Option<u8> {
    if 0x30 <= b <= 0x39 {
        Some((b - 0x30) as u8)
    } else if 0x61 <= b <= 0x66 {
        Some((b - 0x61 + 10) as u8)
    } else if 0x41 <= b <= 0x46 {
        Some((b - 0x41 + 10) as u8)
    } else {
        None
    }
}

/// The byte that two characters write in hexadecimal: two digits, or a
/// plus sign and one digit.
pub open spec fn hex_byte(high: u8, low: u8) -> Option<u8> {
    match hex_value(low) {
        None => None,
        Some(l) => if high == 0x2b {
            Some(l)
        } else {
            match hex_value(high) {
                Some(h) => Some((h * 16 + l) as u8),
                None => None,
            }
        },
    }
}

/// Why a text is not a colour.
#[derive(Debug, Clone, Copy, PartialEq, Eq, Structural)]
pub enum ColorError {
    /// The text does not begin with `#`.
    NoHash,
    /// What follows the `#` is not hexadecimal.
    BadDigits,
    /// What follows the `#` is neither six nor eight characters long.
    BadLength,
}

/// The colour that the bytes `s` write: `#RRGGBB`, which is opaque, or
/// `#RRGGBBAA`.
pub open spec fn color_from(s: Seq<u8>) -> Result<Color, ColorError> {
    if s.len() == 0 || s[0] != 0x23 {
        Err(ColorError::NoHash)
    } else if s.len() == 7 {
        match (hex_byte(s[1], s[2]), hex_byte(s[3], s[4]), hex_byte(s[5], s[6])) {
            (Some(r), Some(g), Some(b)) => Ok(Color { r, g, b, a: 255 }),
            _ => Err(ColorError::BadDigits),
        }
    } else if s.len() == 9 {
        match (hex_byte(s[1], s[2]), hex_byte(s[3], s[4]), hex_byte(s[5], s[6]), hex_byte(s[7], s[8])) {
            (Some(r), Some(g), Some(b), Some(a)) => Ok(Color { r, g, b, a }),
            _ => Err(ColorError::BadDigits),
        }
    } else {
        Err(ColorError::BadLength)
    }
}

/// The value of a hexadecimal digit.
fn hex_digit(b: u8) -> (v: Option<u8>)
    ensures
        v == hex_value(b),
{
    if 0x30 <= b && b <= 0x39 {
        Some(b - 0x30)
    } else if 0x61 <= b && b <= 0x66 {
        Some(b - 0x61 + 10)
    } else if 0x41 <= b && b <= 0x46 {
        Some(b - 0x41 + 10)
    } else {
        None
    }
}

/// The byte that two characters write in hexadecimal.
fn hex_pair(high: u8, low: u8) -> (v: Option<u8>)
    ensures
        v == hex_byte(high, low),
{
    let l = match hex_digit(low) {
        Some(l) => l,
        None => {
            return None;
        },
    };
    if high == 0x2b {
        return Some(l);
    }
    match hex_digit(high) {
        Some(h) => Some(h * 16 + l),
        None => None,
    }
}

impl Color {
    /// Reads a colour written as `#RRGGBB` or `#RRGGBBAA`.
    pub fn from_hex(s: &str) -> (r: Result<Color, ColorError>)
        ensures
            r == color_from(s.spec_bytes()),
    {
        let bytes = s.as_bytes();
        if bytes.len() == 0 || bytes[0] != 0x23 {
            return Err(ColorError::NoHash);
        }
        if bytes.len() == 7 {
            match (hex_pair(bytes[1], bytes[2]), hex_pair(bytes[3], bytes[4]), hex_pair(bytes[5], bytes[6])) {
                (Some(r), Some(g), Some(b)) => Ok(Color { r, g, b, a: 255 }),
                _ => Err(ColorError::BadDigits),
            }
        } else if bytes.len() == 9 {
            match (
                hex_pair(bytes[1], bytes[2]),
                hex_pair(bytes[3], bytes[4]),
                hex_pair(bytes[5], bytes[6]),
                hex_pair(bytes[7], bytes[8]),
            ) {
                (Some(r), Some(g), Some(b), Some(a)) => Ok(Color { r, g, b, a }),
                _ => Err(ColorError::BadDigits),
            }
        } else {
            Err(ColorError::BadLength)
        }
    }
}

} // verus!
