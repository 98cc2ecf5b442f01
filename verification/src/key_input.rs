//! Key chords: one key press with its modifiers, and its written form.

use vstd::prelude::*;
use vstd::string::StringExecFns;
use crate::text::{chars_of, is_control, is_control_char, starts_with};

verus! {

/// Which key was pressed.
#[derive(Debug, Clone, Copy, PartialEq, Eq, PartialOrd, Ord, Hash, Structural)]
pub enum KeyCode {
    Enter,
    Escape,
    Backspace,
    Tab,
    BackTab,
    Delete,
    Insert,
    Up,
    Down,
    Left,
    Right,
    Home,
    End,
    PageUp,
    PageDown,
    Char(char),
}

/// One key press: the key and the modifiers held with it.
#[derive(Debug, Clone, Copy, PartialEq, Eq, PartialOrd, Ord, Hash, Structural)]
pub struct KeyInput {
    pub ctrl: bool,
    pub alt: bool,
    pub code: KeyCode,
}

impl KeyCode {
    /// The sign that stands for a key without a character of its own.
    pub open spec fn sign(self) -> Option<char> {
        match self {
            KeyCode::Up => Some('\u{2191}'),
            KeyCode::Down => Some('\u{2193}'),
            KeyCode::Left => Some('\u{2190}'),
            KeyCode::Right => Some('\u{2192}'),
            KeyCode::Enter => Some('\u{21b5}'),
            KeyCode::Escape => Some('\u{238b}'),
            KeyCode::Backspace => Some('\u{232b}'),
            KeyCode::Tab => Some('\u{21e5}'),
            KeyCode::BackTab => Some('\u{21e4}'),
            KeyCode::Delete => Some('\u{2326}'),
            KeyCode::Insert => Some('\u{2380}'),
            KeyCode::Home => Some('\u{21f1}'),
            KeyCode::End => Some('\u{21f2}'),
            KeyCode::PageUp => Some('\u{21de}'),
            KeyCode::PageDown => Some('\u{21df}'),
            KeyCode::Char(_) => None,
        }
    }

    /// The character that writes the key: its sign, or the character it
    /// types.
    pub open spec fn letter(self) -> char {
        match self {
            KeyCode::Char(c) => c,
            _ => self.sign().unwrap(),
        }
    }

    /// Where the key stands among all keys: the keys without a character
    /// first, in a fixed order, then the characters by code point.
    pub open spec fn rank(self) -> int {
        match self {
            KeyCode::Enter => 0,
            KeyCode::Escape => 1,
            KeyCode::Backspace => 2,
            KeyCode::Tab => 3,
            KeyCode::BackTab => 4,
            KeyCode::Delete => 5,
            KeyCode::Insert => 6,
            KeyCode::Up => 7,
            KeyCode::Down => 8,
            KeyCode::Left => 9,
            KeyCode::Right => 10,
            KeyCode::Home => 11,
            KeyCode::End => 12,
            KeyCode::PageUp => 13,
            KeyCode::PageDown => 14,
            KeyCode::Char(c) => 15 + c as u32,
        }
    }

    /// Where the key stands among all keys.
    pub fn position(&self) -> (r: u64)
        ensures
            r == self.rank(),
    {
        match self {
            KeyCode::Enter => 0,
            KeyCode::Escape => 1,
            KeyCode::Backspace => 2,
            KeyCode::Tab => 3,
            KeyCode::BackTab => 4,
            KeyCode::Delete => 5,
            KeyCode::Insert => 6,
            KeyCode::Up => 7,
            KeyCode::Down => 8,
            KeyCode::Left => 9,
            KeyCode::Right => 10,
            KeyCode::Home => 11,
            KeyCode::End => 12,
            KeyCode::PageUp => 13,
            KeyCode::PageDown => 14,
            KeyCode::Char(c) => 15 + (*c as u32) as u64,
        }
    }
}

/// The key that the single character `c` writes: the key whose sign it
/// is, else the character key, unless `c` is a control code.
pub open spec fn code_of(c: char) -> Option<KeyCode> {
    if c == '\u{2191}' {
        Some(KeyCode::Up)
    } else if c == '\u{2193}' {
        Some(KeyCode::Down)
    } else if c == '\u{2190}' {
        Some(KeyCode::Left)
    } else if c == '\u{2192}' {
        Some(KeyCode::Right)
    } else if c == '\u{21b5}' {
        Some(KeyCode::Enter)
    } else if c == '\u{238b}' {
        Some(KeyCode::Escape)
    } else if c == '\u{232b}' {
        Some(KeyCode::Backspace)
    } else if c == '\u{21e5}' {
        Some(KeyCode::Tab)
    } else if c == '\u{21e4}' {
        Some(KeyCode::BackTab)
    } else if c == '\u{2326}' {
        Some(KeyCode::Delete)
    } else if c == '\u{2380}' {
        Some(KeyCode::Insert)
    } else if c == '\u{21f1}' {
        Some(KeyCode::Home)
    } else if c == '\u{21f2}' {
        Some(KeyCode::End)
    } else if c == '\u{21de}' {
        Some(KeyCode::PageUp)
    } else if c == '\u{21df}' {
        Some(KeyCode::PageDown)
    } else if !is_control(c) {
        Some(KeyCode::Char(c))
    } else {
        None
    }
}

/// Whether `s`, read from index `i`, goes on with the modifier that
/// `letter` marks: the letter and a hyphen.
pub open spec fn has_modifier(s: Seq<char>, i: int, letter: char) -> bool {
    i + 2 <= s.len() && s[i] == letter && s[i + 1] == '-'
}

/// The chord that `s` is the written form of: `C-` for control first,
/// then `M-` for alt, then the one character that writes the key.
pub open spec fn key_of(s: Seq<char>) -> Option<KeyInput> {
    let ctrl = has_modifier(s, 0, 'C');
    let i: int = if ctrl { 2 } else { 0 };
    let alt = has_modifier(s, i, 'M');
    let j: int = if alt { i + 2 } else { i };
    if s.len() == j + 1 {
        match code_of(s[j]) {
            Some(code) => Some(KeyInput { ctrl, alt, code }),
            None => None,
        }
    } else {
        None
    }
}

impl KeyInput {
    /// The written form of the chord.
    pub open spec fn text(self) -> Seq<char> {
        (if self.ctrl { seq!['C', '-'] } else { Seq::empty() }) + (if self.alt { seq!['M', '-'] } else { Seq::empty() })
            + seq![self.code.letter()]
    }

    /// Reading order among chords: without control before with it, then
    /// without alt before with it, then by key.
    pub open spec fn before(self, other: KeyInput) -> bool {
        ||| !self.ctrl && other.ctrl
        ||| self.ctrl == other.ctrl && !self.alt && other.alt
        ||| self.ctrl == other.ctrl && self.alt == other.alt && self.code.rank() < other.code.rank()
    }

    /// Whether `self` comes before `other`.
    pub fn precedes(&self, other: &KeyInput) -> (b: bool)
        ensures
            b == self.before(*other),
    {
        if self.ctrl != other.ctrl {
            !self.ctrl
        } else if self.alt != other.alt {
            !self.alt
        } else {
            self.code.position() < other.code.position()
        }
    }

    /// Reads a chord from the characters `chars[from..to]`.
    pub fn from_chars(chars: &Vec<char>, from: usize, to: usize) -> (key: Option<KeyInput>)
        requires
            from <= to <= chars@.len(),
        ensures
            key == key_of(chars@.subrange(from as int, to as int)),
    {
        let ghost s = chars@.subrange(from as int, to as int);
        let mut i = from;
        let ctrl = to - i >= 2 && chars[i] == 'C' && chars[i + 1] == '-';
        if ctrl {
            i += 2;
        }
        assert(ctrl == has_modifier(s, 0, 'C')) by {
            if s.len() >= 2 {
                assert(s[0] == chars@[from as int] && s[1] == chars@[from + 1]);
            }
        }
        let alt = to - i >= 2 && chars[i] == 'M' && chars[i + 1] == '-';
        assert(alt == has_modifier(s, i - from, 'M')) by {
            if s.len() >= i - from + 2 {
                assert(s[i - from] == chars@[i as int] && s[i - from + 1] == chars@[i + 1]);
            }
        }
        if alt {
            i += 2;
        }
        if to - i != 1 {
            return None;
        }
        assert(s[i - from] == chars@[i as int]);
        match key_code_of(chars[i]) {
            Some(code) => Some(KeyInput { ctrl, alt, code }),
            None => None,
        }
    }

    /// Reads a chord from its written form.
    pub fn from_str(s: &str) -> (key: Option<KeyInput>)
        ensures
            key == key_of(s@),
    {
        let chars = chars_of(s);
        assert(chars@.subrange(0, chars@.len() as int) =~= s@);
        KeyInput::from_chars(&chars, 0, chars.len())
    }

    /// Appends the written form of the chord to `out`.
    pub fn write_to(&self, out: &mut String)
        ensures
            final(out)@ == old(out)@ + self.text(),
    {
        if self.ctrl {
            out.push('C');
            out.push('-');
        }
        if self.alt {
            out.push('M');
            out.push('-');
        }
        out.push(key_letter(self.code));
        assert(out@ =~= old(out)@ + self.text());
    }

    /// The written form of the chord.
    pub fn to_string(&self) -> (s: String)
        ensures
            s@ == self.text(),
    {
        let mut s = String::new();
        self.write_to(&mut s);
        assert(s@ =~= self.text());
        s
    }
}

/// The key that the single character `c` writes.
pub fn key_code_of(c: char) -> (code: Option<KeyCode>)
    ensures
        code == code_of(c),
{
    if c == '\u{2191}' {
        Some(KeyCode::Up)
    } else if c == '\u{2193}' {
        Some(KeyCode::Down)
    } else if c == '\u{2190}' {
        Some(KeyCode::Left)
    } else if c == '\u{2192}' {
        Some(KeyCode::Right)
    } else if c == '\u{21b5}' {
        Some(KeyCode::Enter)
    } else if c == '\u{238b}' {
        Some(KeyCode::Escape)
    } else if c == '\u{232b}' {
        Some(KeyCode::Backspace)
    } else if c == '\u{21e5}' {
        Some(KeyCode::Tab)
    } else if c == '\u{21e4}' {
        Some(KeyCode::BackTab)
    } else if c == '\u{2326}' {
        Some(KeyCode::Delete)
    } else if c == '\u{2380}' {
        Some(KeyCode::Insert)
    } else if c == '\u{21f1}' {
        Some(KeyCode::Home)
    } else if c == '\u{21f2}' {
        Some(KeyCode::End)
    } else if c == '\u{21de}' {
        Some(KeyCode::PageUp)
    } else if c == '\u{21df}' {
        Some(KeyCode::PageDown)
    } else if !is_control_char(c) {
        Some(KeyCode::Char(c))
    } else {
        None
    }
}

/// The character that writes the key.
pub fn key_letter(code: KeyCode) -> (c: char)
    ensures
        c == code.letter(),
{
    match code {
        KeyCode::Up => '\u{2191}',
        KeyCode::Down => '\u{2193}',
        KeyCode::Left => '\u{2190}',
        KeyCode::Right => '\u{2192}',
        KeyCode::Enter => '\u{21b5}',
        KeyCode::Escape => '\u{238b}',
        KeyCode::Backspace => '\u{232b}',
        KeyCode::Tab => '\u{21e5}',
        KeyCode::BackTab => '\u{21e4}',
        KeyCode::Delete => '\u{2326}',
        KeyCode::Insert => '\u{2380}',
        KeyCode::Home => '\u{21f1}',
        KeyCode::End => '\u{21f2}',
        KeyCode::PageUp => '\u{21de}',
        KeyCode::PageDown => '\u{21df}',
        KeyCode::Char(c) => c,
    }
}

/// A chord is read back from its written form, as long as its key is
/// not a control code and not a character that is the sign of another
/// key.
pub proof fn lemma_key_of_text(key: KeyInput)
    requires
        code_of(key.code.letter()) == Some(key.code),
    ensures
        key_of(key.text()) == Some(key),
{
    let s = key.text();
    let c = key.code.letter();
    if key.ctrl && key.alt {
        assert(s =~= seq!['C', '-', 'M', '-', c]);
    } else if key.ctrl {
        assert(s =~= seq!['C', '-', c]);
    } else if key.alt {
        assert(s =~= seq!['M', '-', c]);
    } else {
        assert(s =~= seq![c]);
    }
}

} // verus!
