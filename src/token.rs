use std::ops::Range;
use vstd::prelude::*;

verus! {

/// The two line terminators that the lexer recognises.
#[derive(Debug, Clone, Copy, PartialEq, Eq, Structural)]
pub enum NewLineType {
    /// `\r\n`
    WindowsStyle,
    /// `\n`
    UnixStyle,
}

impl NewLineType {
    /// Number of characters that a complete terminator of this style spans.
    pub open spec fn width(self) -> nat {
        match self {
            NewLineType::WindowsStyle => 2,
            NewLineType::UnixStyle => 1,
        }
    }

    pub fn len(&self) -> (r: usize)
        ensures
            r == self.width(),
    {
        match self {
            NewLineType::WindowsStyle => 2,
            NewLineType::UnixStyle => 1,
        }
    }
}

/// The category of a token.
#[derive(Debug, Clone, Copy, PartialEq, Eq, Structural)]
pub enum TokenContent {
    /// A run of at least three `-`.
    Breaks,
    /// A run of `#`; the payload is its length.
    Heading(usize),
    /// A run of `` ` ``; the payload is its length (at least three once emitted).
    CodeFence(usize),
    /// A maximal run of ordinary characters.
    Text,
    /// A line terminator.
    NewLine(NewLineType),
}

/// Characters that start a marker or a line terminator.
pub open spec fn is_special(c: char) -> bool {
    c == '#' || c == '-' || c == '`' || c == '\r' || c == '\n'
}

/// Category that a single character opens, with no look-ahead.
pub open spec fn first_kind(c: char) -> TokenContent {
    if c == '#' {
        TokenContent::Heading(1)
    } else if c == '-' {
        TokenContent::Breaks
    } else if c == '`' {
        TokenContent::CodeFence(1)
    } else if c == '\r' {
        TokenContent::NewLine(NewLineType::WindowsStyle)
    } else if c == '\n' {
        TokenContent::NewLine(NewLineType::UnixStyle)
    } else {
        TokenContent::Text
    }
}

/// Whether a run of category `kind` goes on with the character `c`, and the
/// category it then has.
pub open spec fn continues(kind: TokenContent, c: char) -> Option<TokenContent> {
    match kind {
        TokenContent::Breaks => if c == '-' {
            Some(TokenContent::Breaks)
        } else {
            None
        },
        TokenContent::Heading(level) => if c == '#' {
            Some(TokenContent::Heading((level + 1) as usize))
        } else {
            None
        },
        TokenContent::CodeFence(level) => if c == '`' {
            Some(TokenContent::CodeFence((level + 1) as usize))
        } else {
            None
        },
        TokenContent::Text => if !is_special(c) {
            Some(TokenContent::Text)
        } else {
            None
        },
        TokenContent::NewLine(style) => if style == NewLineType::WindowsStyle && c == '\n' {
            Some(TokenContent::NewLine(NewLineType::WindowsStyle))
        } else {
            None
        },
    }
}

/// The payload of a category does not overflow when the run grows by one.
pub open spec fn can_grow(kind: TokenContent) -> bool {
    match kind {
        TokenContent::Heading(level) => level < usize::MAX,
        TokenContent::CodeFence(level) => level < usize::MAX,
        _ => true,
    }
}

impl TokenContent {
    pub fn is_single_special_char(ch: &char) -> (r: bool)
        ensures
            r == is_special(*ch),
    {
        *ch == '#' || *ch == '-' || *ch == '`' || *ch == '\r' || *ch == '\n'
    }

    pub fn single_char_type(ch: &char) -> (r: TokenContent)
        ensures
            r == first_kind(*ch),
    {
        match *ch {
            '#' => TokenContent::Heading(1),
            '-' => TokenContent::Breaks,
            '`' => TokenContent::CodeFence(1),
            '\r' => TokenContent::NewLine(NewLineType::WindowsStyle),
            '\n' => TokenContent::NewLine(NewLineType::UnixStyle),
            _ => TokenContent::Text,
        }
    }

    pub fn should_continue(&self, temp_char: &char) -> (r: Option<TokenContent>)
        requires
            can_grow(*self),
        ensures
            r == continues(*self, *temp_char),
    {
        match *self {
            TokenContent::Breaks => if *temp_char == '-' {
                Some(TokenContent::Breaks)
            } else {
                None
            },
            TokenContent::Heading(level) => if *temp_char == '#' {
                Some(TokenContent::Heading(level + 1))
            } else {
                None
            },
            TokenContent::CodeFence(level) => if *temp_char == '`' {
                Some(TokenContent::CodeFence(level + 1))
            } else {
                None
            },
            TokenContent::Text => if !TokenContent::is_single_special_char(temp_char) {
                Some(TokenContent::Text)
            } else {
                None
            },
            TokenContent::NewLine(style) => match style {
                NewLineType::WindowsStyle => if *temp_char == '\n' {
                    Some(TokenContent::NewLine(NewLineType::WindowsStyle))
                } else {
                    None
                },
                NewLineType::UnixStyle => None,
            },
        }
    }
}

/// A lexical unit: its category and the half-open range of character offsets
/// it covers in the input.
#[derive(Debug, PartialEq, Eq)]
pub struct Token {
    pub content: TokenContent,
    pub range: Range<usize>,
}

} // verus!
