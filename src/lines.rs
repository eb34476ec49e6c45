//! Splitting a text into lines, as `str::lines` does: lines end at `\n` or
//! `\r\n`, terminators are not kept, and a final terminator is optional.

use vstd::prelude::*;
use vstd::std_specs::iter::IteratorSpec;

verus! {

/// Relies on `String::push`: appends one character at the end.
pub assume_specification[ String::push ](s: &mut String, ch: char)
    ensures
        final(s)@ == old(s)@.push(ch),
;

/// The characters of `s`, in order.
pub(crate) fn chars_of(s: &str) -> (r: Vec<char>)
    ensures
        r@ == s@,
{
    broadcast use vstd::string::group_string_axioms;

    let mut it = s.chars();
    let mut r: Vec<char> = Vec::new();
    loop
        invariant
            r@.len() <= s@.len(),
            it.remaining() == s@.skip(r@.len() as int),
            r@ == s@.take(r@.len() as int),
        ensures
            r@ == s@,
        decreases s@.len() - r@.len(),
    {
        match it.next() {
            Some(c) => {
                assert(s@.take(r@.len() as int + 1) == s@.take(r@.len() as int).push(c));
                r.push(c);
            },
            None => {
                assert(s@.take(r@.len() as int) == s@);
                break ;
            },
        }
    }
    r
}

/// A line as it was terminated by `\n`: one `\r` before the `\n` belongs to
/// the terminator.
pub open spec fn strip_cr(line: Seq<char>) -> Seq<char> {
    if line.len() > 0 && line.last() == '\r' {
        line.drop_last()
    } else {
        line
    }
}

/// The state after reading the first `n` characters of `s`: the lines that
/// are complete, and the characters of the line in progress.
pub open spec fn scan_chars(s: Seq<char>, n: int) -> (Seq<Seq<char>>, Seq<char>)
    decreases n,
{
    if n <= 0 {
        (Seq::empty(), Seq::empty())
    } else {
        let (done, cur) = scan_chars(s, n - 1);
        if s[n - 1] == '\n' {
            (done.push(strip_cr(cur)), Seq::empty())
        } else {
            (done, cur.push(s[n - 1]))
        }
    }
}

/// The lines of `s`. A line in progress at the end is a line of its own
/// unless it is empty.
pub open spec fn lines_of(s: Seq<char>) -> Seq<Seq<char>> {
    let (done, cur) = scan_chars(s, s.len() as int);
    if cur.len() == 0 {
        done
    } else {
        done.push(cur)
    }
}

/// The character sequences held by a sequence of strings.
pub open spec fn view_lines(v: Seq<String>) -> Seq<Seq<char>> {
    v.map_values(|l: String| l@)
}

pub(crate) fn string_of_range(chars: &Vec<char>, from: usize, to: usize) -> (r: String)
    requires
        from <= to <= chars@.len(),
    ensures
        r@ == chars@.subrange(from as int, to as int),
{
    let mut r = String::new();
    let mut i: usize = from;
    while i < to
        invariant
            from <= i <= to <= chars@.len(),
            r@ == chars@.subrange(from as int, i as int),
        decreases to - i,
    {
        r.push(chars[i]);
        assert(chars@.subrange(from as int, i + 1) == chars@.subrange(from as int, i as int).push(
            chars@[i as int],
        ));
        i = i + 1;
    }
    r
}

/// The lines of `text`, each without its terminator.
pub fn split_lines(text: &str) -> (r: Vec<String>)
    ensures
        view_lines(r@) == lines_of(text@),
{
    let chars = chars_of(text);
    let mut lines: Vec<String> = Vec::new();
    let mut start: usize = 0;
    let mut i: usize = 0;
    while i < chars.len()
        invariant
            chars@ == text@,
            start <= i <= chars@.len(),
            scan_chars(text@, i as int).0 == view_lines(lines@),
            scan_chars(text@, i as int).1 == text@.subrange(start as int, i as int),
        decreases chars.len() - i,
    {
        let ghost cur = text@.subrange(start as int, i as int);
        if chars[i] == '\n' {
            let mut end: usize = i;
            if end > start && chars[end - 1] == '\r' {
                end = end - 1;
            }
            let line = string_of_range(&chars, start, end);
            assert(line@ == strip_cr(cur));
            lines.push(line);
            assert(view_lines(lines@) == view_lines(lines@.drop_last()).push(line@));
            start = i + 1;
        } else {
            assert(text@.subrange(start as int, i + 1) == cur.push(text@[i as int]));
        }
        i = i + 1;
    }
    if start < chars.len() {
        let line = string_of_range(&chars, start, chars.len());
        lines.push(line);
        assert(view_lines(lines@) == view_lines(lines@.drop_last()).push(line@));
    }
    lines
}

} // verus!
