//! The line-oriented content language: `#?` lines are commands with
//! arguments, every other line is text.

use crate::scan::{lines, split_lines, split_words, trim, trimmed, words};
use crate::text::same_text;
use vstd::prelude::*;

verus! {

/// Why a line or a file could not be read.
#[derive(Debug)]
pub enum ParserError {
    InvalidCommand,
    InvalidLineAmount { expected: usize, got: usize },
    InvalidArguments { expected: String, got: String },
    NoInput,
}

/// One argument of a command: a whole number when the word reads as an
/// `i32`, the word itself otherwise.
#[derive(Debug)]
pub enum Arg<'a> {
    Str(&'a str),
    Num(i32),
}

/// The arguments of a command, in order.
pub type Arguments<'a> = Vec<Arg<'a>>;

/// The commands of the language.
#[derive(Debug, PartialEq, Eq, Structural, Clone, Copy)]
pub enum CommandType {
    Head,
    DefineLayout,
    Align,
}

/// Turns a value into a command argument.
pub trait ToArg<'a> {
    fn to_arg(&self) -> Arg<'a>;
}

/// One parsed line.
#[derive(Debug)]
pub enum Statement<'a> {
    Command(CommandType, Arguments<'a>),
    Text(&'a str),
}

/// The parser of the content language.
pub struct Parser;

/// An ASCII decimal digit.
pub open spec fn is_digit(c: char) -> bool {
    48 <= (c as u32) <= 57
}

/// The value of an ASCII decimal digit.
pub open spec fn digit_value(c: char) -> int {
    (c as u32) - 48
}

/// The value of a string of decimal digits.
pub open spec fn digits_value(s: Seq<char>) -> int
    decreases s.len(),
{
    if s.len() == 0 {
        0
    } else {
        digits_value(s.drop_last()) * 10 + digit_value(s.last())
    }
}

/// `s` without a leading sign.
pub open spec fn unsigned_part(s: Seq<char>) -> Seq<char> {
    if s.len() > 0 && (s[0] == '+' || s[0] == '-') {
        s.subrange(1, s.len() as int)
    } else {
        s
    }
}

/// Every character of `s` is a decimal digit.
pub open spec fn all_digits(s: Seq<char>) -> bool {
    forall|i: int| 0 <= i < s.len() ==> is_digit(#[trigger] s[i])
}

/// What `str::parse::<i32>` makes of `s`: an optional sign, then one or more
/// digits whose value fits.
pub open spec fn parsed_i32(s: Seq<char>) -> Option<i32> {
    let body = unsigned_part(s);
    let value = if s.len() > 0 && s[0] == '-' {
        -digits_value(body)
    } else {
        digits_value(body)
    };
    if body.len() == 0 || !all_digits(body) {
        None
    } else if i32::MIN <= value <= i32::MAX {
        Some(value as i32)
    } else {
        None
    }
}

/// The argument a word stands for.
pub open spec fn arg_for(a: Arg, word: Seq<char>) -> bool {
    match parsed_i32(word) {
        Some(v) => a == Arg::Num(v),
        None => match a {
            Arg::Str(t) => t@ == word,
            _ => false,
        },
    }
}

/// The command a word names.
pub open spec fn command_named(word: Seq<char>) -> Option<CommandType> {
    if word == "head"@ {
        Some(CommandType::Head)
    } else if word == "define_layout"@ {
        Some(CommandType::DefineLayout)
    } else if word == "align"@ {
        Some(CommandType::Align)
    } else {
        None
    }
}

/// A line that starts with the command marker `#?`.
pub open spec fn is_directive(line: Seq<char>) -> bool {
    line.len() >= 2 && line[0] == '#' && line[1] == '?'
}

/// A line that parses: exactly one line, and a command whose name is known.
pub open spec fn line_accepted(line: Seq<char>) -> bool {
    &&& lines(line).len() == 1
    &&& is_directive(line) ==> words(line).len() >= 2 && command_named(words(line)[1]) is Some
}

/// `r` is what a line parses to: the wrong number of lines, a command
/// without a name or with an unknown one, a command with its arguments (the
/// words after its name), or the line's text without surrounding whitespace.
pub open spec fn parsed_as(line: Seq<char>, r: Result<Statement, ParserError>) -> bool {
    let count = lines(line).len();
    let ws = words(line);
    if count != 1 {
        match r {
            Err(ParserError::InvalidLineAmount { expected, got }) => expected == 1 && got == count,
            _ => false,
        }
    } else if is_directive(line) {
        if ws.len() < 2 {
            r matches Err(ParserError::NoInput)
        } else {
            match command_named(ws[1]) {
                None => r matches Err(ParserError::InvalidCommand),
                Some(cmd) => match r {
                    Ok(Statement::Command(c, args)) => {
                        &&& c == cmd
                        &&& args@.len() == ws.len() - 2
                        &&& forall|i: int| 0 <= i < args@.len() ==> arg_for(#[trigger] args@[i], ws[i + 2])
                    },
                    _ => false,
                },
            }
        }
    } else {
        match r {
            Ok(Statement::Text(t)) => t@ == trimmed(line),
            _ => false,
        }
    }
}

/// The non-empty lines of a file once its surrounding whitespace is gone.
pub open spec fn file_lines(input: Seq<char>) -> Seq<Seq<char>> {
    lines(trimmed(input)).filter(|l: Seq<char>| l.len() > 0)
}

/// Reads `s` as an `i32` the way `str::parse::<i32>` does.
pub fn parse_i32(s: &str) -> (r: Option<i32>)
    ensures
        r == parsed_i32(s@),
{
    let n = s.unicode_len();
    if n == 0 {
        return None;
    }
    let first = s.get_char(0);
    let negative = first == '-';
    let begin: usize = if first == '+' || first == '-' {
        1
    } else {
        0
    };
    let ghost body = s@.subrange(begin as int, n as int);
    assert(begin == 0 ==> body =~= s@);
    assert(unsigned_part(s@) == body);
    if begin == n {
        return None;
    }
    let mut acc: u64 = 0;
    let mut big = false;
    let mut i: usize = begin;
    assert(s@.subrange(begin as int, begin as int) =~= Seq::<char>::empty());
    while i < n
        invariant
            n == s@.len(),
            begin <= i <= n,
            body == s@.subrange(begin as int, n as int),
            unsigned_part(s@) == body,
            forall|k: int| begin <= k < i ==> is_digit(#[trigger] s@[k]),
            !big ==> acc == digits_value(s@.subrange(begin as int, i as int)) && acc <= 2147483648,
            big ==> digits_value(s@.subrange(begin as int, i as int)) > 2147483648,
        decreases n - i,
    {
        let c = s.get_char(i);
        let u = c as u32;
        if u < 48 || u > 57 {
            assert(body[i - begin] == c);
            assert(!is_digit(body[i - begin]));
            return None;
        }
        let ghost part = s@.subrange(begin as int, i + 1);
        assert(part.drop_last() =~= s@.subrange(begin as int, i as int));
        assert(part.last() == c);
        proof {
            assert(digits_value(s@.subrange(begin as int, i as int)) >= 0) by {
                lemma_digits_nonnegative(s@.subrange(begin as int, i as int));
            }
        }
        if !big {
            let next = acc * 10 + (u - 48) as u64;
            if next > 2147483648 {
                big = true;
            } else {
                acc = next;
            }
        }
        i = i + 1;
    }
    assert(s@.subrange(begin as int, n as int) == body);
    assert(forall|k: int| 0 <= k < body.len() ==> #[trigger] body[k] == s@[begin + k]);
    if big {
        return None;
    }
    if negative {
        Some((0 - (acc as i64)) as i32)
    } else if acc > 2147483647 {
        None
    } else {
        Some(acc as i32)
    }
}

/// A string of digits has a value of at least zero.
pub proof fn lemma_digits_nonnegative(s: Seq<char>)
    requires
        forall|k: int| 0 <= k < s.len() ==> is_digit(#[trigger] s[k]),
    ensures
        digits_value(s) >= 0,
    decreases s.len(),
{
    if s.len() > 0 {
        lemma_digits_nonnegative(s.drop_last());
    }
}

/// The argument a word stands for: its `i32` value, or the word itself.
pub fn word_arg<'a>(word: &'a str) -> (r: Arg<'a>)
    ensures
        arg_for(r, word@),
{
    match parse_i32(word) {
        Some(v) => Arg::Num(v),
        None => Arg::Str(word),
    }
}

impl<'a> ToArg<'a> for &'a str {
    fn to_arg(&self) -> Arg<'a> {
        word_arg(*self)
    }
}

/// The command a word names, or `InvalidCommand`.
pub fn command_from(word: &str) -> (r: Result<CommandType, ParserError>)
    ensures
        match command_named(word@) {
            Some(cmd) => r == Ok::<CommandType, ParserError>(cmd),
            None => r matches Err(ParserError::InvalidCommand),
        },
{
    if same_text(word, "head") {
        Ok(CommandType::Head)
    } else if same_text(word, "define_layout") {
        Ok(CommandType::DefineLayout)
    } else if same_text(word, "align") {
        Ok(CommandType::Align)
    } else {
        Err(ParserError::InvalidCommand)
    }
}

impl std::str::FromStr for CommandType {
    type Err = ParserError;

    fn from_str(s: &str) -> Result<CommandType, ParserError> {
        command_from(s)
    }
}

impl Parser {
    /// Parses one line: a `#?` command with its arguments, or text.
    pub fn parse_line<'a>(input: &'a str) -> (r: Result<Statement<'a>, ParserError>)
        ensures
            parsed_as(input@, r),
            r is Ok <==> line_accepted(input@),
    {
        let count = split_lines(input).len();
        if count != 1 {
            return Err(ParserError::InvalidLineAmount { expected: 1, got: count });
        }
        let n = input.unicode_len();
        if n >= 2 && input.get_char(0) == '#' && input.get_char(1) == '?' {
            let ws = split_words(input);
            let ghost views = ws@.map_values(|w: &str| w@);
            if ws.len() < 2 {
                return Err(ParserError::NoInput);
            }
            assert(views[1] == ws@[1]@);
            let command = match command_from(ws[1]) {
                Ok(command) => command,
                Err(e) => return Err(e),
            };
            let mut args: Vec<Arg<'a>> = Vec::new();
            let mut i: usize = 2;
            while i < ws.len()
                invariant
                    2 <= i <= ws@.len(),
                    views == ws@.map_values(|w: &str| w@),
                    args@.len() == i - 2,
                    forall|k: int| 0 <= k < args@.len() ==> arg_for(#[trigger] args@[k], views[k + 2]),
                decreases ws@.len() - i,
            {
                let ghost before = args@;
                args.push(word_arg(ws[i]));
                assert(views[i as int] == ws@[i as int]@);
                assert(forall|k: int| 0 <= k < before.len() ==> args@[k] == before[k]);
                i = i + 1;
            }
            return Ok(Statement::Command(command, args));
        }
        Ok(Statement::Text(trim(input)))
    }

    /// Parses a file: the non-empty lines of its trimmed text, in order; the
    /// first line that does not parse decides the error.
    pub fn parse_file<'a>(input: &'a str) -> (r: Result<Vec<Statement<'a>>, ParserError>)
        ensures
            ({
                let fl = file_lines(input@);
                &&& r is Ok <==> forall|i: int| 0 <= i < fl.len() ==> line_accepted(#[trigger] fl[i])
                &&& r matches Ok(sts) ==> sts@.len() == fl.len() && forall|i: int|
                    0 <= i < fl.len() ==> parsed_as(fl[i], Ok(#[trigger] sts@[i]))
                &&& r matches Err(e) ==> exists|i: int|
                    0 <= i < fl.len() && (forall|j: int| 0 <= j < i ==> line_accepted(#[trigger] fl[j]))
                        && parsed_as(#[trigger] fl[i], Err(e))
            }),
    {
        let text = trim(input);
        let ls = split_lines(text);
        let ghost lv = ls@.map_values(|l: &str| l@);
        let ghost keep = |l: Seq<char>| l.len() > 0;
        let ghost fl = file_lines(input@);
        assert(lv == lines(trimmed(input@)));
        assert(fl == lv.filter(keep));
        let mut out: Vec<Statement<'a>> = Vec::new();
        let mut i: usize = 0;
        while i < ls.len()
            invariant
                i <= ls@.len(),
                lv == ls@.map_values(|l: &str| l@),
                keep == (|l: Seq<char>| l.len() > 0),
                fl == lv.filter(keep),
                fl == file_lines(input@),
                out@.len() == lv.subrange(0, i as int).filter(keep).len(),
                forall|k: int|
                    0 <= k < out@.len() ==> parsed_as(
                        lv.subrange(0, i as int).filter(keep)[k],
                        Ok(#[trigger] out@[k]),
                    ) && line_accepted(lv.subrange(0, i as int).filter(keep)[k]),
            decreases ls@.len() - i,
        {
            let line = ls[i];
            let ghost done = lv.subrange(0, i as int).filter(keep);
            assert(lv[i as int] == line@);
            proof {
                assert(lv.subrange(0, i + 1) =~= lv.subrange(0, i as int).push(lv[i as int]));
                lv.subrange(0, i as int).lemma_filter_push(lv[i as int], keep);
                assert(lv =~= lv.subrange(0, i + 1) + lv.subrange(i + 1, lv.len() as int));
                Seq::filter_distributes_over_add(
                    lv.subrange(0, i + 1),
                    lv.subrange(i + 1, lv.len() as int),
                    keep,
                );
            }
            if line.unicode_len() > 0 {
                match Parser::parse_line(line) {
                    Ok(statement) => {
                        let ghost before = out@;
                        out.push(statement);
                        assert(forall|k: int| 0 <= k < before.len() ==> out@[k] == before[k]);
                    },
                    Err(e) => {
                        let ghost k = done.len() as int;
                        assert(keep(line@));
                        assert(lv.subrange(0, i + 1).filter(keep) == done.push(line@));
                        assert(fl[k] == line@);
                        assert(forall|j: int| 0 <= j < k ==> fl[j] == done[j]);
                        assert(forall|j: int| 0 <= j < k ==> line_accepted(#[trigger] fl[j])) by {
                            assert forall|j: int| 0 <= j < k implies line_accepted(#[trigger] fl[j]) by {
                                assert(fl[j] == done[j]);
                                assert(parsed_as(done[j], Ok(out@[j])));
                            }
                        }
                        assert(!line_accepted(fl[k]));
                        assert(parsed_as(fl[k], Err(e)));
                        return Err(e);
                    },
                }
            }
            i = i + 1;
        }
        assert(lv.subrange(0, i as int) =~= lv);
        assert forall|k: int| 0 <= k < fl.len() implies line_accepted(#[trigger] fl[k])
            && parsed_as(fl[k], Ok(out@[k])) by {
            assert(parsed_as(fl[k], Ok(out@[k])));
        }
        Ok(out)
    }
}

} // verus!
