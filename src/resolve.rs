//! Naming the target of a code block: from an annotation on its opening
//! fence, or from the document's own name.

use vstd::prelude::*;
use crate::lines::{chars_of, string_of_range};

verus! {

/// The characters held by an optional string.
pub open spec fn opt_view(o: Option<String>) -> Option<Seq<char>> {
    match o {
        Some(s) => Some(s@),
        None => None,
    }
}

/// A line that opens or closes a fenced block: it starts with three backticks.
pub open spec fn is_fence(line: Seq<char>) -> bool {
    line.len() >= 3 && line[0] == '`' && line[1] == '`' && line[2] == '`'
}

/// The characters after the first space of `s`, if `s` holds a space.
pub open spec fn after_first_space(s: Seq<char>) -> Option<Seq<char>>
    decreases s.len(),
{
    if s.len() == 0 {
        None
    } else if s[0] == ' ' {
        Some(s.drop_first())
    } else {
        after_first_space(s.drop_first())
    }
}

/// The characters of `s` before its first space; all of `s` if it holds none.
pub open spec fn before_first_space(s: Seq<char>) -> Seq<char>
    decreases s.len(),
{
    if s.len() == 0 {
        s
    } else if s[0] == ' ' {
        Seq::empty()
    } else {
        seq![s[0]] + before_first_space(s.drop_first())
    }
}

/// `s` without the spaces it starts with.
pub open spec fn skip_spaces(s: Seq<char>) -> Seq<char>
    decreases s.len(),
{
    if s.len() > 0 && s[0] == ' ' {
        skip_spaces(s.drop_first())
    } else {
        s
    }
}

/// The file name annotated on a fence line: the first nonempty token after
/// its first space. There is none where the line holds no space, or only
/// spaces after its first one.
pub open spec fn fence_annotation(line: Seq<char>) -> Option<Seq<char>> {
    match after_first_space(line) {
        Some(rest) => {
            let token = before_first_space(skip_spaces(rest));
            if token.len() == 0 {
                None
            } else {
                Some(token)
            }
        },
        None => None,
    }
}

proof fn lemma_skip_spaces(s: Seq<char>, i: int)
    requires
        0 <= i <= s.len(),
        forall|k: int| 0 <= k < i ==> s[k] == ' ',
        i == s.len() || s[i] != ' ',
    ensures
        skip_spaces(s) == s.skip(i),
    decreases i,
{
    if i > 0 {
        lemma_skip_spaces(s.drop_first(), i - 1);
        assert(s.drop_first().skip(i - 1) == s.skip(i));
    } else {
        assert(s.skip(0) == s);
    }
}

proof fn lemma_after_first_space(s: Seq<char>, i: int)
    requires
        0 <= i <= s.len(),
        forall|k: int| 0 <= k < i ==> s[k] != ' ',
    ensures
        after_first_space(s) == after_first_space(s.skip(i)),
    decreases i,
{
    if i > 0 {
        lemma_after_first_space(s.drop_first(), i - 1);
        assert(s.drop_first().skip(i - 1) == s.skip(i));
    } else {
        assert(s.skip(0) == s);
    }
}

proof fn lemma_before_first_space(s: Seq<char>, j: int)
    requires
        0 <= j <= s.len(),
        forall|k: int| 0 <= k < j ==> s[k] != ' ',
        j == s.len() || s[j] == ' ',
    ensures
        before_first_space(s) == s.take(j),
    decreases j,
{
    if j > 0 {
        lemma_before_first_space(s.drop_first(), j - 1);
        assert(seq![s[0]] + s.drop_first().take(j - 1) == s.take(j));
    } else if s.len() == 0 {
        assert(s.take(0) == s);
    } else {
        assert(s.take(0) == Seq::<char>::empty());
    }
}

/// The file name annotated on the fence line `line`, if any (see
/// [`fence_annotation`]).
pub fn annotation_of(line: &str) -> (r: Option<String>)
    ensures
        opt_view(r) == fence_annotation(line@),
{
    let chars = chars_of(line);
    let mut i: usize = 0;
    while i < chars.len() && chars[i] != ' '
        invariant
            chars@ == line@,
            i <= chars@.len(),
            forall|k: int| 0 <= k < i ==> chars@[k] != ' ',
        decreases chars.len() - i,
    {
        i = i + 1;
    }
    proof {
        lemma_after_first_space(line@, i as int);
    }
    if i == chars.len() {
        assert(line@.skip(i as int).len() == 0);
        return None;
    }
    assert(after_first_space(line@) == Some(line@.skip(i + 1)));
    let mut start: usize = i + 1;
    while start < chars.len() && chars[start] == ' '
        invariant
            chars@ == line@,
            i < start <= chars@.len(),
            forall|k: int| i < k < start ==> chars@[k] == ' ',
        decreases chars.len() - start,
    {
        start = start + 1;
    }
    let mut j: usize = start;
    while j < chars.len() && chars[j] != ' '
        invariant
            chars@ == line@,
            start <= j <= chars@.len(),
            forall|k: int| start <= k < j ==> chars@[k] != ' ',
        decreases chars.len() - j,
    {
        j = j + 1;
    }
    let ghost rest = line@.skip(i + 1);
    let ghost trimmed = line@.skip(start as int);
    proof {
        lemma_skip_spaces(rest, start - i - 1);
        assert(rest.skip(start - i - 1) == trimmed);
        lemma_before_first_space(trimmed, j - start);
        assert(trimmed.take(j - start) == line@.subrange(start as int, j as int));
    }
    if j == start {
        return None;
    }
    Some(string_of_range(&chars, start, j))
}

/// `t` begins with `k` copies of `./`.
pub open spec fn dot_slash_prefix(t: Seq<char>, k: int) -> bool {
    &&& 0 <= k
    &&& 2 * k <= t.len()
    &&& forall|m: int| 0 <= m < k ==> #[trigger] t[2 * m] == '.' && t[2 * m + 1] == '/'
}

/// `u` is a nonempty stem free of `.` and `/`, then a dot, then at least one
/// more character.
pub open spec fn stem_dot_rest(u: Seq<char>) -> bool {
    exists|j: int|
        {
            &&& 1 <= j
            &&& j + 1 < u.len()
            &&& u[j] == '.'
            &&& forall|m: int| 0 <= m < j ==> u[m] != '.' && u[m] != '/'
        }
}

/// `s` ends with `.md`.
pub open spec fn has_md_suffix(s: Seq<char>) -> bool {
    &&& s.len() >= 3
    &&& s[s.len() - 3] == '.'
    &&& s[s.len() - 2] == 'm'
    &&& s[s.len() - 1] == 'd'
}

/// A match of [`SOURCE_FILE_PATTERN`] starts at position `p` of `s`: the rest
/// of `s` is some copies of `./`, a stem, a dot and an extension, then `.md`.
pub open spec fn source_match_at(s: Seq<char>, p: int) -> bool {
    &&& has_md_suffix(s)
    &&& 0 <= p <= s.len() - 3
    &&& exists|k: int|
        {
            &&& #[trigger] dot_slash_prefix(s.subrange(p, s.len() - 3), k)
            &&& stem_dot_rest(s.subrange(p, s.len() - 3).skip(2 * k))
        }
}

/// `p` is the leftmost position where a match starts.
pub open spec fn leftmost_source_match(s: Seq<char>, p: int) -> bool {
    source_match_at(s, p) && forall|q: int| 0 <= q < p ==> !source_match_at(s, q)
}

/// The program file name that the document path `s` implies: the leftmost
/// match of [`SOURCE_FILE_PATTERN`], without its `.md`.
pub open spec fn source_name(s: Seq<char>) -> Option<Seq<char>> {
    if exists|p: int| source_match_at(s, p) {
        let p = choose|p: int| leftmost_source_match(s, p);
        Some(s.subrange(p, s.len() - 3))
    } else {
        None
    }
}

/// The shape of a document path that names its program file: `foo.rs.md`
/// names `foo.rs`. The group is what the name is taken from.
pub const SOURCE_FILE_PATTERN: &'static str = "(?s)(?P<source_file_name>(\\./)*[^\\./]+\\..+)\\.md$";

/// Relies on `regex::Regex::new`, `Regex::captures` and indexing `Captures` by
/// group name: the pattern compiles, `captures` finds the leftmost match, `.` matches
/// any character under the `s` flag, and
/// the group spans that match up to the `.md` that `$` anchors at the end.
#[verifier::external_body]
fn capture_source_name(file: &str) -> (r: Option<String>)
    ensures
        opt_view(r) == source_name(file@),
{
    let re = regex::Regex::new(SOURCE_FILE_PATTERN).unwrap();
    match re.captures(file) {
        Some(c) => Some(c["source_file_name"].to_string()),
        None => None,
    }
}

/// The program file name implied by the document path `file`, if any.
pub fn source_name_of(file: &str) -> (r: Option<String>)
    ensures
        opt_view(r) == source_name(file@),
{
    capture_source_name(file)
}

} // verus!
