//! The commands that key bindings name, with their written form.

use vstd::prelude::*;
use vstd::string::StringExecFns;
use crate::text::{begins_with, chars_of, ends_with, finishes_with, is_control, is_control_char, spells, starts_with, string_of};

verus! {

/// Something the editor can be told to do.
#[derive(Debug, Clone, PartialEq, Eq)]
pub enum EditorCommand {
    Quit,
    Legend,
    Preview,
    Background(char),
    Cancel,
    Save,
    Undo,
    /// Leads on to the bindings of the named group.
    Scope(String),
    PrevLine,
    NextLine,
    PrevChar,
    NextChar,
    Dot(char),
    MarkStroke,
    MarkLine,
    MarkRect,
    MarkFilledRect,
    MarkFill,
    Cut,
    Copy,
    Paste,
}

/// A command as a plain value.
pub enum CommandView {
    Quit,
    Legend,
    Preview,
    Background(char),
    Cancel,
    Save,
    Undo,
    Scope(Seq<char>),
    PrevLine,
    NextLine,
    PrevChar,
    NextChar,
    Dot(char),
    MarkStroke,
    MarkLine,
    MarkRect,
    MarkFilledRect,
    MarkFill,
    Cut,
    Copy,
    Paste,
}

impl View for EditorCommand {
    type V = CommandView;

    open spec fn view(&self) -> CommandView {
        match self {
            EditorCommand::Quit => CommandView::Quit,
            EditorCommand::Legend => CommandView::Legend,
            EditorCommand::Preview => CommandView::Preview,
            EditorCommand::Background(c) => CommandView::Background(*c),
            EditorCommand::Cancel => CommandView::Cancel,
            EditorCommand::Save => CommandView::Save,
            EditorCommand::Undo => CommandView::Undo,
            EditorCommand::Scope(name) => CommandView::Scope(name@),
            EditorCommand::PrevLine => CommandView::PrevLine,
            EditorCommand::NextLine => CommandView::NextLine,
            EditorCommand::PrevChar => CommandView::PrevChar,
            EditorCommand::NextChar => CommandView::NextChar,
            EditorCommand::Dot(c) => CommandView::Dot(*c),
            EditorCommand::MarkStroke => CommandView::MarkStroke,
            EditorCommand::MarkLine => CommandView::MarkLine,
            EditorCommand::MarkRect => CommandView::MarkRect,
            EditorCommand::MarkFilledRect => CommandView::MarkFilledRect,
            EditorCommand::MarkFill => CommandView::MarkFill,
            EditorCommand::Cut => CommandView::Cut,
            EditorCommand::Copy => CommandView::Copy,
            EditorCommand::Paste => CommandView::Paste,
        }
    }
}

/// Why a text is not a command.
#[derive(Debug, Clone, Copy, PartialEq, Eq, Structural)]
pub enum CommandError {
    /// `dot(..)` without exactly one printable character inside.
    InvalidDot,
    /// `bg(..)` without exactly one printable character inside.
    InvalidBackground,
    /// `scope()` without a group name.
    InvalidScope,
    /// No command is written like this.
    Unknown,
}

/// The command that is written as the single word `s`.
pub open spec fn word_command(s: Seq<char>) -> Option<CommandView> {
    if s == "quit"@ {
        Some(CommandView::Quit)
    } else if s == "legend"@ {
        Some(CommandView::Legend)
    } else if s == "preview"@ {
        Some(CommandView::Preview)
    } else if s == "cancel"@ {
        Some(CommandView::Cancel)
    } else if s == "save"@ {
        Some(CommandView::Save)
    } else if s == "undo"@ {
        Some(CommandView::Undo)
    } else if s == "prev-line"@ {
        Some(CommandView::PrevLine)
    } else if s == "next-line"@ {
        Some(CommandView::NextLine)
    } else if s == "prev-char"@ {
        Some(CommandView::PrevChar)
    } else if s == "next-char"@ {
        Some(CommandView::NextChar)
    } else if s == "mark-stroke"@ {
        Some(CommandView::MarkStroke)
    } else if s == "mark-line"@ {
        Some(CommandView::MarkLine)
    } else if s == "mark-rect"@ {
        Some(CommandView::MarkRect)
    } else if s == "mark-filled-rect"@ {
        Some(CommandView::MarkFilledRect)
    } else if s == "mark-fill"@ {
        Some(CommandView::MarkFill)
    } else if s == "cut"@ {
        Some(CommandView::Cut)
    } else if s == "copy"@ {
        Some(CommandView::Copy)
    } else if s == "paste"@ {
        Some(CommandView::Paste)
    } else {
        None
    }
}

/// The argument of `dot(..)` and `bg(..)`: exactly one character, and
/// not a control code.
pub open spec fn one_char(arg: Seq<char>) -> Option<char> {
    if arg.len() == 1 && !is_control(arg[0]) {
        Some(arg[0])
    } else {
        None
    }
}

/// What is written between `open` and the closing bracket of `s`.
pub open spec fn argument(s: Seq<char>, open: Seq<char>) -> Seq<char> {
    s.subrange(open.len() as int, s.len() - 1)
}

/// Whether `s` is `open`, something, and a closing bracket.
pub open spec fn is_call(s: Seq<char>, open: Seq<char>) -> bool {
    starts_with(s, open) && ends_with(s, ")"@) && s.len() > open.len()
}

/// The command that `s` is the written form of.
pub open spec fn command_of(s: Seq<char>) -> Result<CommandView, CommandError> {
    match word_command(s) {
        Some(c) => Ok(c),
        None => if is_call(s, "dot("@) {
            match one_char(argument(s, "dot("@)) {
                Some(c) => Ok(CommandView::Dot(c)),
                None => Err(CommandError::InvalidDot),
            }
        } else if is_call(s, "bg("@) {
            match one_char(argument(s, "bg("@)) {
                Some(c) => Ok(CommandView::Background(c)),
                None => Err(CommandError::InvalidBackground),
            }
        } else if is_call(s, "scope("@) {
            if argument(s, "scope("@).len() == 0 {
                Err(CommandError::InvalidScope)
            } else {
                Ok(CommandView::Scope(argument(s, "scope("@)))
            }
        } else {
            Err(CommandError::Unknown)
        },
    }
}

impl CommandView {
    /// The written form of the command.
    pub open spec fn text(self) -> Seq<char> {
        match self {
            CommandView::Quit => "quit"@,
            CommandView::Legend => "legend"@,
            CommandView::Preview => "preview"@,
            CommandView::Background(c) => "bg("@ + seq![c] + ")"@,
            CommandView::Cancel => "cancel"@,
            CommandView::Save => "save"@,
            CommandView::Undo => "undo"@,
            CommandView::Scope(name) => "scope("@ + name + ")"@,
            CommandView::PrevLine => "prev-line"@,
            CommandView::NextLine => "next-line"@,
            CommandView::PrevChar => "prev-char"@,
            CommandView::NextChar => "next-char"@,
            CommandView::Dot(c) => "dot("@ + seq![c] + ")"@,
            CommandView::MarkStroke => "mark-stroke"@,
            CommandView::MarkLine => "mark-line"@,
            CommandView::MarkRect => "mark-rect"@,
            CommandView::MarkFilledRect => "mark-filled-rect"@,
            CommandView::MarkFill => "mark-fill"@,
            CommandView::Cut => "cut"@,
            CommandView::Copy => "copy"@,
            CommandView::Paste => "paste"@,
        }
    }
}

/// The one character of `chars[from..to]`, if it is one character and
/// not a control code.
fn one_char_of(chars: &Vec<char>, from: usize, to: usize) -> (c: Option<char>)
    requires
        from <= to <= chars@.len(),
    ensures
        c == one_char(chars@.subrange(from as int, to as int)),
{
    if to - from == 1 && !is_control_char(chars[from]) {
        Some(chars[from])
    } else {
        None
    }
}

/// Whether `chars` is `open`, something, and a closing bracket.
fn calls(chars: &Vec<char>, open: &str) -> (b: bool)
    ensures
        b == is_call(chars@, open@),
{
    begins_with(chars, open) && finishes_with(chars, ")") && chars.len() > open.unicode_len()
}

impl EditorCommand {
    /// Reads a command from its written form.
    pub fn from_str(s: &str) -> (r: Result<EditorCommand, CommandError>)
        ensures
            match r {
                Ok(c) => command_of(s@) == Ok::<CommandView, CommandError>(c@),
                Err(e) => command_of(s@) == Err::<CommandView, CommandError>(e),
            },
    {
        let chars = chars_of(s);
        let n = chars.len();
        assert(chars@.subrange(0, n as int) =~= s@);
        if spells(&chars, 0, n, "quit") {
            return Ok(EditorCommand::Quit);
        }
        if spells(&chars, 0, n, "legend") {
            return Ok(EditorCommand::Legend);
        }
        if spells(&chars, 0, n, "preview") {
            return Ok(EditorCommand::Preview);
        }
        if spells(&chars, 0, n, "cancel") {
            return Ok(EditorCommand::Cancel);
        }
        if spells(&chars, 0, n, "save") {
            return Ok(EditorCommand::Save);
        }
        if spells(&chars, 0, n, "undo") {
            return Ok(EditorCommand::Undo);
        }
        if spells(&chars, 0, n, "prev-line") {
            return Ok(EditorCommand::PrevLine);
        }
        if spells(&chars, 0, n, "next-line") {
            return Ok(EditorCommand::NextLine);
        }
        if spells(&chars, 0, n, "prev-char") {
            return Ok(EditorCommand::PrevChar);
        }
        if spells(&chars, 0, n, "next-char") {
            return Ok(EditorCommand::NextChar);
        }
        if spells(&chars, 0, n, "mark-stroke") {
            return Ok(EditorCommand::MarkStroke);
        }
        if spells(&chars, 0, n, "mark-line") {
            return Ok(EditorCommand::MarkLine);
        }
        if spells(&chars, 0, n, "mark-rect") {
            return Ok(EditorCommand::MarkRect);
        }
        if spells(&chars, 0, n, "mark-filled-rect") {
            return Ok(EditorCommand::MarkFilledRect);
        }
        if spells(&chars, 0, n, "mark-fill") {
            return Ok(EditorCommand::MarkFill);
        }
        if spells(&chars, 0, n, "cut") {
            return Ok(EditorCommand::Cut);
        }
        if spells(&chars, 0, n, "copy") {
            return Ok(EditorCommand::Copy);
        }
        if spells(&chars, 0, n, "paste") {
            return Ok(EditorCommand::Paste);
        }
        if calls(&chars, "dot(") {
            let from = "dot(".unicode_len();
            return match one_char_of(&chars, from, n - 1) {
                Some(c) => Ok(EditorCommand::Dot(c)),
                None => Err(CommandError::InvalidDot),
            };
        }
        if calls(&chars, "bg(") {
            let from = "bg(".unicode_len();
            return match one_char_of(&chars, from, n - 1) {
                Some(c) => Ok(EditorCommand::Background(c)),
                None => Err(CommandError::InvalidBackground),
            };
        }
        if calls(&chars, "scope(") {
            let from = "scope(".unicode_len();
            if n - 1 == from {
                return Err(CommandError::InvalidScope);
            }
            return Ok(EditorCommand::Scope(string_of(&chars, from, n - 1)));
        }
        Err(CommandError::Unknown)
    }

    /// The written form of the command.
    pub fn to_string(&self) -> (s: String)
        ensures
            s@ == self@.text(),
    {
        match self {
            EditorCommand::Quit => String::from_str("quit"),
            EditorCommand::Legend => String::from_str("legend"),
            EditorCommand::Preview => String::from_str("preview"),
            EditorCommand::Background(c) => {
                let mut s = String::from_str("bg(");
                s.push(*c);
                s.append(")");
                s
            },
            EditorCommand::Cancel => String::from_str("cancel"),
            EditorCommand::Save => String::from_str("save"),
            EditorCommand::Undo => String::from_str("undo"),
            EditorCommand::Scope(name) => {
                let mut s = String::from_str("scope(");
                s.append(name.as_str());
                s.append(")");
                s
            },
            EditorCommand::PrevLine => String::from_str("prev-line"),
            EditorCommand::NextLine => String::from_str("next-line"),
            EditorCommand::PrevChar => String::from_str("prev-char"),
            EditorCommand::NextChar => String::from_str("next-char"),
            EditorCommand::Dot(c) => {
                let mut s = String::from_str("dot(");
                s.push(*c);
                s.append(")");
                s
            },
            EditorCommand::MarkStroke => String::from_str("mark-stroke"),
            EditorCommand::MarkLine => String::from_str("mark-line"),
            EditorCommand::MarkRect => String::from_str("mark-rect"),
            EditorCommand::MarkFilledRect => String::from_str("mark-filled-rect"),
            EditorCommand::MarkFill => String::from_str("mark-fill"),
            EditorCommand::Cut => String::from_str("cut"),
            EditorCommand::Copy => String::from_str("copy"),
            EditorCommand::Paste => String::from_str("paste"),
        }
    }

    /// A copy of the command.
    pub fn copy(&self) -> (c: EditorCommand)
        ensures
            c@ == self@,
    {
        match self {
            EditorCommand::Quit => EditorCommand::Quit,
            EditorCommand::Legend => EditorCommand::Legend,
            EditorCommand::Preview => EditorCommand::Preview,
            EditorCommand::Background(c) => EditorCommand::Background(*c),
            EditorCommand::Cancel => EditorCommand::Cancel,
            EditorCommand::Save => EditorCommand::Save,
            EditorCommand::Undo => EditorCommand::Undo,
            EditorCommand::Scope(name) => EditorCommand::Scope(name.clone()),
            EditorCommand::PrevLine => EditorCommand::PrevLine,
            EditorCommand::NextLine => EditorCommand::NextLine,
            EditorCommand::PrevChar => EditorCommand::PrevChar,
            EditorCommand::NextChar => EditorCommand::NextChar,
            EditorCommand::Dot(c) => EditorCommand::Dot(*c),
            EditorCommand::MarkStroke => EditorCommand::MarkStroke,
            EditorCommand::MarkLine => EditorCommand::MarkLine,
            EditorCommand::MarkRect => EditorCommand::MarkRect,
            EditorCommand::MarkFilledRect => EditorCommand::MarkFilledRect,
            EditorCommand::MarkFill => EditorCommand::MarkFill,
            EditorCommand::Cut => EditorCommand::Cut,
            EditorCommand::Copy => EditorCommand::Copy,
            EditorCommand::Paste => EditorCommand::Paste,
        }
    }
}

impl CommandError {
    /// The message for a text `s` that is not a command.
    pub fn message(&self, s: &str) -> (m: String)
        ensures
            m@ == match self {
                CommandError::InvalidDot => "invalid dot command: "@,
                CommandError::InvalidBackground => "invalid bg command: "@,
                CommandError::InvalidScope => "invalid scope command: "@,
                CommandError::Unknown => "unknown command: "@,
            } + s@,
    {
        let mut m = match self {
            CommandError::InvalidDot => String::from_str("invalid dot command: "),
            CommandError::InvalidBackground => String::from_str("invalid bg command: "),
            CommandError::InvalidScope => String::from_str("invalid scope command: "),
            CommandError::Unknown => String::from_str("unknown command: "),
        };
        m.append(s);
        m
    }
}

impl CommandView {
    /// Whether the command can be written: a dot and a background take a
    /// character that is no control code, and a scope takes a name.
    pub open spec fn writable(self) -> bool {
        match self {
            CommandView::Dot(c) => !is_control(c),
            CommandView::Background(c) => !is_control(c),
            CommandView::Scope(name) => name.len() > 0,
            _ => true,
        }
    }
}

proof fn reveal_command_words()
    ensures
        "quit"@ =~= seq!['q', 'u', 'i', 't'],
        "legend"@ =~= seq!['l', 'e', 'g', 'e', 'n', 'd'],
        "preview"@ =~= seq!['p', 'r', 'e', 'v', 'i', 'e', 'w'],
        "cancel"@ =~= seq!['c', 'a', 'n', 'c', 'e', 'l'],
        "save"@ =~= seq!['s', 'a', 'v', 'e'],
        "undo"@ =~= seq!['u', 'n', 'd', 'o'],
        "prev-line"@ =~= seq!['p', 'r', 'e', 'v', '-', 'l', 'i', 'n', 'e'],
        "next-line"@ =~= seq!['n', 'e', 'x', 't', '-', 'l', 'i', 'n', 'e'],
        "prev-char"@ =~= seq!['p', 'r', 'e', 'v', '-', 'c', 'h', 'a', 'r'],
        "next-char"@ =~= seq!['n', 'e', 'x', 't', '-', 'c', 'h', 'a', 'r'],
        "mark-stroke"@ =~= seq!['m', 'a', 'r', 'k', '-', 's', 't', 'r', 'o', 'k', 'e'],
        "mark-line"@ =~= seq!['m', 'a', 'r', 'k', '-', 'l', 'i', 'n', 'e'],
        "mark-rect"@ =~= seq!['m', 'a', 'r', 'k', '-', 'r', 'e', 'c', 't'],
        "mark-filled-rect"@ =~= seq![
            'm',
            'a',
            'r',
            'k',
            '-',
            'f',
            'i',
            'l',
            'l',
            'e',
            'd',
            '-',
            'r',
            'e',
            'c',
            't',
        ],
        "mark-fill"@ =~= seq!['m', 'a', 'r', 'k', '-', 'f', 'i', 'l', 'l'],
        "cut"@ =~= seq!['c', 'u', 't'],
        "copy"@ =~= seq!['c', 'o', 'p', 'y'],
        "paste"@ =~= seq!['p', 'a', 's', 't', 'e'],
        "dot("@ =~= seq!['d', 'o', 't', '('],
        "bg("@ =~= seq!['b', 'g', '('],
        "scope("@ =~= seq!['s', 'c', 'o', 'p', 'e', '('],
        ")"@ =~= seq![')'],
{
    reveal_strlit("quit");
    reveal_strlit("legend");
    reveal_strlit("preview");
    reveal_strlit("cancel");
    reveal_strlit("save");
    reveal_strlit("undo");
    reveal_strlit("prev-line");
    reveal_strlit("next-line");
    reveal_strlit("prev-char");
    reveal_strlit("next-char");
    reveal_strlit("mark-stroke");
    reveal_strlit("mark-line");
    reveal_strlit("mark-rect");
    reveal_strlit("mark-filled-rect");
    reveal_strlit("mark-fill");
    reveal_strlit("cut");
    reveal_strlit("copy");
    reveal_strlit("paste");
    reveal_strlit("dot(");
    reveal_strlit("bg(");
    reveal_strlit("scope(");
    reveal_strlit(")");
}

/// A text made of `open`, `inner`, and a closing bracket is a call of
/// `open` with `inner` as its argument.
proof fn lemma_call(open: Seq<char>, inner: Seq<char>)
    ensures
        is_call(open + inner + ")"@, open),
        argument(open + inner + ")"@, open) == inner,
        (open + inner + ")"@).len() == open.len() + inner.len() + 1,
{
    reveal_strlit(")");
    let s = open + inner + ")"@;
    assert(s.subrange(0, open.len() as int) =~= open);
    assert(s.subrange(s.len() - 1, s.len() as int) =~= ")"@);
    assert(s.subrange(open.len() as int, s.len() - 1) =~= inner);
}

/// A command is read back from its written form.
#[verifier::rlimit(50)]
pub proof fn lemma_command_of_text(c: CommandView)
    requires
        c.writable(),
    ensures
        command_of(c.text()) == Ok::<CommandView, CommandError>(c),
{
    reveal_command_words();
    match c {
        CommandView::Dot(x) => {
            lemma_call("dot("@, seq![x]);
            let s = c.text();
            assert(s[3] == '(');
            assert(word_command(s) is None);
        },
        CommandView::Background(x) => {
            lemma_call("bg("@, seq![x]);
            let s = c.text();
            assert(s[2] == '(');
            assert(word_command(s) is None);
            assert(!starts_with(s, "dot("@)) by {
                assert(s.subrange(0, 4)[0] == 'b');
            }
        },
        CommandView::Scope(name) => {
            lemma_call("scope("@, name);
            let s = c.text();
            assert(s[5] == '(');
            assert(word_command(s) is None);
            assert(!starts_with(s, "dot("@)) by {
                assert(s.subrange(0, 4)[0] == 's');
            }
            assert(!starts_with(s, "bg("@)) by {
                assert(s.subrange(0, 3)[0] == 's');
            }
        },
        _ => {},
    }
}

} // verus!
