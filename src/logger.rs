//! Terminal styles for progress and status lines.

use crate::text::concat;
use vstd::prelude::*;

verus! {

/// A terminal style, selected by an ANSI SGR code.
#[derive(PartialEq, Eq, Structural, Clone, Copy)]
pub enum LogStyle {
    Clear,
    Bold,
    Italic,
    Red,
    Green,
    Yellow,
    Blue,
    Purple,
    Cyan,
    Grey,
}

/// The SGR code of a style.
pub open spec fn style_code(style: LogStyle) -> u8 {
    match style {
        LogStyle::Clear => 0,
        LogStyle::Bold => 1,
        LogStyle::Italic => 3,
        LogStyle::Red => 31,
        LogStyle::Green => 32,
        LogStyle::Yellow => 33,
        LogStyle::Blue => 34,
        LogStyle::Purple => 35,
        LogStyle::Cyan => 36,
        LogStyle::Grey => 90,
    }
}

/// The decimal digits of a code below one hundred.
pub open spec fn code_digits(code: u8) -> Seq<char>
    recommends
        code < 100,
{
    let digit = |d: int| if d == 0 { '0' } else if d == 1 { '1' } else if d == 2 { '2' } else if d == 3 {
        '3'
    } else if d == 4 { '4' } else if d == 5 { '5' } else if d == 6 { '6' } else if d == 7 { '7' } else if d
        == 8 { '8' } else { '9' };
    if code < 10 {
        seq![digit(code as int)]
    } else {
        seq![digit((code / 10) as int), digit((code % 10) as int)]
    }
}

/// The escape sequence that switches a terminal to a style.
pub open spec fn escape_sequence(style: LogStyle) -> Seq<char> {
    seq!['\u{1b}', '['] + code_digits(style_code(style)) + seq!['m']
}

impl LogStyle {
    /// The SGR code of this style.
    pub fn code(&self) -> (r: u8)
        ensures
            r == style_code(*self),
    {
        match self {
            LogStyle::Clear => 0,
            LogStyle::Bold => 1,
            LogStyle::Italic => 3,
            LogStyle::Red => 31,
            LogStyle::Green => 32,
            LogStyle::Yellow => 33,
            LogStyle::Blue => 34,
            LogStyle::Purple => 35,
            LogStyle::Cyan => 36,
            LogStyle::Grey => 90,
        }
    }

    /// The escape sequence that switches a terminal to this style.
    pub fn escape(&self) -> (r: String)
        ensures
            r@ == escape_sequence(*self),
    {
        let digits: &str = match self {
            LogStyle::Clear => "0",
            LogStyle::Bold => "1",
            LogStyle::Italic => "3",
            LogStyle::Red => "31",
            LogStyle::Green => "32",
            LogStyle::Yellow => "33",
            LogStyle::Blue => "34",
            LogStyle::Purple => "35",
            LogStyle::Cyan => "36",
            LogStyle::Grey => "90",
        };
        proof {
            reveal_strlit("0");
            reveal_strlit("1");
            reveal_strlit("3");
            reveal_strlit("31");
            reveal_strlit("32");
            reveal_strlit("33");
            reveal_strlit("34");
            reveal_strlit("35");
            reveal_strlit("36");
            reveal_strlit("90");
            reveal_strlit("\u{1b}[");
            reveal_strlit("m");
        }
        assert(digits@ =~= code_digits(style_code(*self)));
        let head = concat("\u{1b}[", digits);
        let r = concat(head.as_str(), "m");
        assert(r@ =~= escape_sequence(*self));
        r
    }
}

} // verus!
