//! Comma-separated fields and unsigned numbers, with the meaning
//! `str::split_terminator(',')` and `str::parse::<u64>` give them.

use crate::lexer::{all_digits, digits_value, is_digit, lemma_digits_nonnegative};
use vstd::prelude::*;

verus! {

/// The pieces of `s` between commas; there is always at least one.
pub open spec fn comma_pieces(s: Seq<char>) -> Seq<Seq<char>>
    decreases s.len(),
{
    if s.len() == 0 {
        seq![Seq::empty()]
    } else {
        let before = comma_pieces(s.drop_last());
        if s.last() == ',' {
            before.push(Seq::empty())
        } else {
            before.update(before.len() - 1, before.last().push(s.last()))
        }
    }
}

/// The comma-separated fields of `s`; an empty last piece is not a field.
pub open spec fn fields(s: Seq<char>) -> Seq<Seq<char>> {
    let p = comma_pieces(s);
    if p.last().len() == 0 {
        p.drop_last()
    } else {
        p
    }
}

/// `s` without a leading plus sign.
pub open spec fn unsigned_digits(s: Seq<char>) -> Seq<char> {
    if s.len() > 0 && s[0] == '+' {
        s.subrange(1, s.len() as int)
    } else {
        s
    }
}

/// What `str::parse::<u64>` makes of `s`: an optional plus sign, then one or
/// more digits whose value fits.
pub open spec fn parsed_u64(s: Seq<char>) -> Option<u64> {
    let body = unsigned_digits(s);
    if body.len() == 0 || !all_digits(body) || digits_value(body) > u64::MAX {
        None
    } else {
        Some(digits_value(body) as u64)
    }
}

/// The comma-separated fields of `s`, as slices of `s`.
pub fn split_fields<'a>(s: &'a str) -> (r: Vec<&'a str>)
    ensures
        r@.map_values(|f: &str| f@) == fields(s@),
{
    let n = s.unicode_len();
    let mut out: Vec<&'a str> = Vec::new();
    let mut start: usize = 0;
    let mut i: usize = 0;
    assert(s@.subrange(0, 0) =~= Seq::<char>::empty());
    assert(out@.map_values(|f: &str| f@).push(s@.subrange(0, 0)) =~= seq![Seq::<char>::empty()]);
    while i < n
        invariant
            n == s@.len(),
            start <= i <= n,
            comma_pieces(s@.subrange(0, i as int)) == out@.map_values(|f: &str| f@).push(
                s@.subrange(start as int, i as int),
            ),
        decreases n - i,
    {
        let c = s.get_char(i);
        let ghost prefix = s@.subrange(0, i + 1);
        assert(prefix.drop_last() =~= s@.subrange(0, i as int));
        assert(prefix.last() == c);
        let ghost before = out@.map_values(|f: &str| f@);
        if c == ',' {
            out.push(s.substring_char(start, i));
            assert(out@.map_values(|f: &str| f@) =~= before.push(s@.subrange(start as int, i as int)));
            start = i + 1;
            assert(s@.subrange(start as int, i + 1) =~= Seq::<char>::empty());
        } else {
            assert(s@.subrange(start as int, i + 1) =~= s@.subrange(start as int, i as int).push(c));
            assert(comma_pieces(prefix) =~= before.push(s@.subrange(start as int, i + 1)));
        }
        i = i + 1;
    }
    assert(s@.subrange(0, n as int) =~= s@);
    if start < n {
        let ghost before = out@.map_values(|f: &str| f@);
        out.push(s.substring_char(start, n));
        assert(out@.map_values(|f: &str| f@) =~= before.push(s@.subrange(start as int, n as int)));
    } else {
        assert(out@.map_values(|f: &str| f@).push(s@.subrange(start as int, n as int)).drop_last()
            =~= out@.map_values(|f: &str| f@));
    }
    out
}

/// Reads `s` as a `u64` the way `str::parse::<u64>` does.
pub fn parse_u64(s: &str) -> (r: Option<u64>)
    ensures
        r == parsed_u64(s@),
{
    let n = s.unicode_len();
    let begin: usize = if n > 0 && s.get_char(0) == '+' {
        1
    } else {
        0
    };
    let ghost body = s@.subrange(begin as int, n as int);
    assert(begin == 0 ==> body =~= s@);
    assert(unsigned_digits(s@) == body);
    if begin == n {
        return None;
    }
    let mut acc: u128 = 0;
    let mut big = false;
    let mut i: usize = begin;
    assert(s@.subrange(begin as int, begin as int) =~= Seq::<char>::empty());
    while i < n
        invariant
            n == s@.len(),
            begin <= i <= n,
            body == s@.subrange(begin as int, n as int),
            unsigned_digits(s@) == body,
            forall|k: int| begin <= k < i ==> is_digit(#[trigger] s@[k]),
            !big ==> acc == digits_value(s@.subrange(begin as int, i as int)) && acc <= u64::MAX,
            big ==> digits_value(s@.subrange(begin as int, i as int)) > u64::MAX,
        decreases n - i,
    {
        let c = s.get_char(i);
        let u = c as u32;
        if u < 48 || u > 57 {
            assert(body[i - begin] == c);
            assert(!is_digit(body[i - begin]));
            return None;
        }
        let ghost part = s@.subrange(begin as int, i + 1);
        assert(part.drop_last() =~= s@.subrange(begin as int, i as int));
        assert(part.last() == c);
        proof {
            lemma_digits_nonnegative(s@.subrange(begin as int, i as int));
        }
        if !big {
            let next = acc * 10 + (u - 48) as u128;
            if next > 0xffff_ffff_ffff_ffff {
                big = true;
            } else {
                acc = next;
            }
        }
        i = i + 1;
    }
    assert(s@.subrange(begin as int, n as int) == body);
    assert(forall|k: int| 0 <= k < body.len() ==> #[trigger] body[k] == s@[begin + k]);
    if big {
        None
    } else {
        Some(acc as u64)
    }
}

} // verus!
