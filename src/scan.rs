//! Whitespace, words and lines of a text, with the meaning `char::is_whitespace`,
//! `str::trim`, `str::split_whitespace` and `str::lines` give them.

use vstd::prelude::*;

verus! {

/// A character of the Unicode `White_Space` property.
pub open spec fn is_space(c: char) -> bool {
    let u = c as u32;
    (0x9 <= u <= 0xd) || u == 0x20 || u == 0x85 || u == 0xa0 || u == 0x1680 || (0x2000 <= u
        <= 0x200a) || u == 0x2028 || u == 0x2029 || u == 0x202f || u == 0x205f || u == 0x3000
}

/// `s` without its leading whitespace.
pub open spec fn trim_start(s: Seq<char>) -> Seq<char>
    decreases s.len(),
{
    if s.len() > 0 && is_space(s[0]) {
        trim_start(s.subrange(1, s.len() as int))
    } else {
        s
    }
}

/// `s` without its trailing whitespace.
pub open spec fn trim_end(s: Seq<char>) -> Seq<char>
    decreases s.len(),
{
    if s.len() > 0 && is_space(s.last()) {
        trim_end(s.drop_last())
    } else {
        s
    }
}

/// `s` without leading and trailing whitespace.
pub open spec fn trimmed(s: Seq<char>) -> Seq<char> {
    trim_end(trim_start(s))
}

/// The maximal runs of non-whitespace characters of `s`, in order.
pub open spec fn words(s: Seq<char>) -> Seq<Seq<char>>
    decreases s.len(),
{
    if s.len() == 0 {
        Seq::empty()
    } else {
        let before = words(s.drop_last());
        let c = s.last();
        if is_space(c) {
            before
        } else if s.len() >= 2 && !is_space(s[s.len() - 2]) && before.len() > 0 {
            before.update(before.len() - 1, before.last().push(c))
        } else {
            before.push(seq![c])
        }
    }
}

/// The pieces of `s` that end in a newline, and the unterminated rest if any.
pub open spec fn line_pieces(s: Seq<char>) -> Seq<Seq<char>>
    decreases s.len(),
{
    if s.len() == 0 {
        Seq::empty()
    } else {
        let before = line_pieces(s.drop_last());
        let c = s.last();
        if before.len() == 0 || before.last().last() == '\n' {
            before.push(seq![c])
        } else {
            before.update(before.len() - 1, before.last().push(c))
        }
    }
}

/// A piece without its line ending: a newline, and a carriage return before it.
pub open spec fn line_body(piece: Seq<char>) -> Seq<char> {
    if piece.len() > 0 && piece.last() == '\n' {
        let t = piece.drop_last();
        if t.len() > 0 && t.last() == '\r' {
            t.drop_last()
        } else {
            t
        }
    } else {
        piece
    }
}

/// The lines of `s`; a final line ending adds no empty line.
pub open spec fn lines(s: Seq<char>) -> Seq<Seq<char>> {
    line_pieces(s).map_values(|p: Seq<char>| line_body(p))
}

/// Whether `c` is whitespace.
pub fn is_space_char(c: char) -> (r: bool)
    ensures
        r == is_space(c),
{
    let u = c as u32;
    (0x9 <= u && u <= 0xd) || u == 0x20 || u == 0x85 || u == 0xa0 || u == 0x1680 || (0x2000 <= u
        && u <= 0x200a) || u == 0x2028 || u == 0x2029 || u == 0x202f || u == 0x205f || u == 0x3000
}

/// `s` without leading and trailing whitespace, as a slice of `s`.
pub fn trim<'a>(s: &'a str) -> (r: &'a str)
    ensures
        r@ == trimmed(s@),
{
    let n = s.unicode_len();
    let mut start: usize = 0;
    assert(s@.subrange(0, n as int) =~= s@);
    while start < n && is_space_char(s.get_char(start))
        invariant
            n == s@.len(),
            start <= n,
            trim_start(s@) == trim_start(s@.subrange(start as int, n as int)),
        decreases n - start,
    {
        let ghost rest = s@.subrange(start as int, n as int);
        assert(rest.subrange(1, rest.len() as int) =~= s@.subrange(start + 1, n as int));
        start = start + 1;
    }
    let ghost front = s@.subrange(start as int, n as int);
    assert(trim_start(s@) == front);
    let mut end: usize = n;
    assert(front.subrange(0, (n - start) as int) =~= front);
    while end > start && is_space_char(s.get_char(end - 1))
        invariant
            n == s@.len(),
            start <= end <= n,
            front == s@.subrange(start as int, n as int),
            trim_end(front) == trim_end(s@.subrange(start as int, end as int)),
        decreases end,
    {
        let ghost part = s@.subrange(start as int, end as int);
        assert(part.drop_last() =~= s@.subrange(start as int, end - 1));
        end = end - 1;
    }
    s.substring_char(start, end)
}

/// The words of `s`, as slices of `s`.
pub fn split_words<'a>(s: &'a str) -> (r: Vec<&'a str>)
    ensures
        r@.map_values(|w: &str| w@) == words(s@),
{
    let n = s.unicode_len();
    let mut out: Vec<&'a str> = Vec::new();
    let mut in_word = false;
    let mut start: usize = 0;
    let mut i: usize = 0;
    while i < n
        invariant
            n == s@.len(),
            i <= n,
            start <= i,
            in_word ==> start < i && !is_space(s@[i - 1]) && words(s@.subrange(0, i as int))
                == out@.map_values(|w: &str| w@).push(s@.subrange(start as int, i as int)),
            !in_word ==> (i == 0 || is_space(s@[i - 1])) && words(s@.subrange(0, i as int))
                == out@.map_values(|w: &str| w@),
        decreases n - i,
    {
        let c = s.get_char(i);
        let ghost prefix = s@.subrange(0, i + 1);
        assert(prefix.drop_last() =~= s@.subrange(0, i as int));
        assert(prefix.last() == c);
        assert(i >= 1 ==> prefix[i - 1] == s@[i - 1]);
        if is_space_char(c) {
            if in_word {
                let ghost before = out@.map_values(|w: &str| w@);
                out.push(s.substring_char(start, i));
                assert(out@.map_values(|w: &str| w@) =~= before.push(
                    s@.subrange(start as int, i as int),
                ));
                in_word = false;
            }
        } else {
            if in_word {
                assert(s@.subrange(start as int, i + 1) =~= s@.subrange(start as int, i as int).push(
                    c,
                ));
                let ghost before = out@.map_values(|w: &str| w@);
                assert(words(prefix) =~= before.push(s@.subrange(start as int, i + 1)));
            } else {
                start = i;
                in_word = true;
                assert(s@.subrange(start as int, i + 1) =~= seq![c]);
            }
        }
        i = i + 1;
    }
    assert(s@.subrange(0, n as int) =~= s@);
    if in_word {
        let ghost before = out@.map_values(|w: &str| w@);
        out.push(s.substring_char(start, n));
        assert(out@.map_values(|w: &str| w@) =~= before.push(s@.subrange(start as int, n as int)));
    }
    out
}

/// The lines of `s`, as slices of `s`.
pub fn split_lines<'a>(s: &'a str) -> (r: Vec<&'a str>)
    ensures
        r@.map_values(|l: &str| l@) == lines(s@),
{
    let n = s.unicode_len();
    let mut out: Vec<&'a str> = Vec::new();
    let ghost mut done: Seq<Seq<char>> = Seq::empty();
    let mut start: usize = 0;
    let mut i: usize = 0;
    while i < n
        invariant
            n == s@.len(),
            start <= i <= n,
            out@.map_values(|l: &str| l@) == done.map_values(|p: Seq<char>| line_body(p)),
            forall|j: int| 0 <= j < done.len() ==> (#[trigger] done[j]).len() > 0 && done[j].last() == '\n',
            start < i ==> s@[i - 1] != '\n' && line_pieces(s@.subrange(0, i as int)) == done.push(
                s@.subrange(start as int, i as int),
            ),
            start == i ==> line_pieces(s@.subrange(0, i as int)) == done,
        decreases n - i,
    {
        let c = s.get_char(i);
        let ghost prefix = s@.subrange(0, i + 1);
        assert(prefix.drop_last() =~= s@.subrange(0, i as int));
        assert(prefix.last() == c);
        let ghost piece = s@.subrange(start as int, i + 1);
        if start < i {
            assert(piece =~= s@.subrange(start as int, i as int).push(c));
            assert(line_pieces(prefix) =~= done.push(piece));
        } else {
            assert(piece =~= seq![c]);
            assert(line_pieces(prefix) =~= done.push(piece));
        }
        if c == '\n' {
            let mut end = i;
            if i > start && s.get_char(i - 1) == '\r' {
                end = i - 1;
            }
            let line = s.substring_char(start, end);
            assert(piece.drop_last() =~= s@.subrange(start as int, i as int));
            assert(i > start ==> piece.drop_last().last() == s@[i - 1]);
            assert(end < i ==> piece.drop_last().drop_last() =~= s@.subrange(start as int, end as int));
            assert(line@ == line_body(piece));
            let ghost before = out@.map_values(|l: &str| l@);
            out.push(line);
            proof {
                let old_done = done;
                done = done.push(piece);
                assert(out@.map_values(|l: &str| l@) =~= before.push(line@));
                assert(done.map_values(|p: Seq<char>| line_body(p)) =~= old_done.map_values(
                    |p: Seq<char>| line_body(p),
                ).push(line_body(piece)));
                assert(forall|j: int| 0 <= j < old_done.len() ==> done[j] == old_done[j]);
            }
            start = i + 1;
        }
        i = i + 1;
    }
    assert(s@.subrange(0, n as int) =~= s@);
    if start < n {
        let line = s.substring_char(start, n);
        let ghost piece = s@.subrange(start as int, n as int);
        assert(piece.last() == s@[n - 1]);
        assert(line@ == line_body(piece));
        let ghost before = out@.map_values(|l: &str| l@);
        out.push(line);
        assert(out@.map_values(|l: &str| l@) =~= before.push(line@));
        assert(done.push(piece).map_values(|p: Seq<char>| line_body(p)) =~= done.map_values(
            |p: Seq<char>| line_body(p),
        ).push(line_body(piece)));
    }
    out
}

} // verus!
