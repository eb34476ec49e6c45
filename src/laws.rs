//! Properties of document extraction, proved over the scan's definition.

use vstd::prelude::*;
use crate::extract::{
    append_line, block_target, lemma_failure_persists, extract, has_target, scan_lines, step, with_target, Entry, Scan,
    initial_scan,
};
use crate::resolve::{
    dot_slash_prefix, fence_annotation, is_fence, leftmost_source_match, source_match_at,
    source_name, stem_dot_rest,
};

verus! {

/// The program map with the lines `ls` added at the end of the lines of `name`.
pub open spec fn append_lines(m: Seq<Entry>, name: Seq<char>, ls: Seq<Seq<char>>) -> Seq<Entry> {
    Seq::new(m.len(), |i: int| if m[i].0 == name { (m[i].0, m[i].1 + ls) } else { m[i] })
}

/// No line of `lines` between positions `a` and `b` is a fence.
pub open spec fn no_fence_in(lines: Seq<Seq<char>>, a: int, b: int) -> bool {
    forall|k: int| a <= k < b ==> !is_fence(#[trigger] lines[k])
}

/// Prose outside a block changes nothing.
pub proof fn law_prose_is_ignored(
    lines: Seq<Seq<char>>,
    implicit: Option<Seq<char>>,
    a: int,
    b: int,
    s: Scan,
)
    requires
        0 <= a <= b <= lines.len(),
        scan_lines(lines, implicit, a) == Some(s),
        !s.inside,
        no_fence_in(lines, a, b),
    ensures
        scan_lines(lines, implicit, b) == Some(s),
    decreases b - a,
{
    if a < b {
        law_prose_is_ignored(lines, implicit, a, b - 1, s);
        assert(!is_fence(lines[b - 1]));
    }
}

/// The lines inside a block are added, in order, to the lines of the block's
/// target, and to no other.
pub proof fn law_block_lines_go_to_target(
    lines: Seq<Seq<char>>,
    implicit: Option<Seq<char>>,
    a: int,
    b: int,
    s: Scan,
)
    requires
        0 <= a <= b <= lines.len(),
        scan_lines(lines, implicit, a) == Some(s),
        s.inside,
        no_fence_in(lines, a, b),
    ensures
        scan_lines(lines, implicit, b) == Some(
            Scan { programs: append_lines(s.programs, s.target, lines.subrange(a, b)), ..s },
        ),
    decreases b - a,
{
    let m = s.programs;
    if a == b {
        assert forall|i: int| 0 <= i < m.len() implies append_lines(m, s.target, lines.subrange(a, b))[i]
            == m[i] by {
            assert(m[i].1 + lines.subrange(a, b) =~= m[i].1);
        }
        assert(append_lines(m, s.target, lines.subrange(a, b)) =~= m);
    } else {
        law_block_lines_go_to_target(lines, implicit, a, b - 1, s);
        assert(!is_fence(lines[b - 1]));
        let prev = append_lines(m, s.target, lines.subrange(a, b - 1));
        let next = append_lines(m, s.target, lines.subrange(a, b));
        assert(lines.subrange(a, b) =~= lines.subrange(a, b - 1).push(lines[b - 1]));
        assert forall|i: int| 0 <= i < m.len() implies append_line(prev, s.target, lines[b - 1])[i]
            == next[i] by {
            assert(m[i].1 + lines.subrange(a, b) =~= (m[i].1 + lines.subrange(a, b - 1)).push(
                lines[b - 1],
            ));
        }
        assert(append_line(prev, s.target, lines[b - 1]) =~= next);
    }
}

/// A block opened by a fence line that annotates `name` collects its lines
/// under `name`, whatever name the document implies.
pub proof fn law_annotation_names_block(
    s: Scan,
    line: Seq<char>,
    implicit: Option<Seq<char>>,
    name: Seq<char>,
)
    requires
        !s.inside,
        is_fence(line),
        fence_annotation(line) == Some(name),
    ensures
        step(s, line, implicit) == Some(
            Scan { inside: true, target: name, programs: with_target(s.programs, name) },
        ),
        has_target(with_target(s.programs, name), name),
{
    let m = s.programs;
    if !has_target(m, name) {
        assert(m.push((name, Seq::empty()))[m.len() as int].0 == name);
    }
}

/// A document without fence lines has an empty program map.
pub proof fn law_no_blocks_no_programs(lines: Seq<Seq<char>>, implicit: Option<Seq<char>>)
    requires
        no_fence_in(lines, 0, lines.len() as int),
    ensures
        extract(lines, implicit) == Some(Seq::<Entry>::empty()),
{
    law_prose_is_ignored(lines, implicit, 0, lines.len() as int, initial_scan());
}

/// Two blocks annotated with the same `name`, with prose before, between and
/// after them, give one program file: the first block's lines, then the
/// second's.
pub proof fn law_blocks_of_one_name_merge(
    p1: Seq<Seq<char>>,
    o1: Seq<char>,
    b1: Seq<Seq<char>>,
    c1: Seq<char>,
    p2: Seq<Seq<char>>,
    o2: Seq<char>,
    b2: Seq<Seq<char>>,
    c2: Seq<char>,
    p3: Seq<Seq<char>>,
    implicit: Option<Seq<char>>,
    name: Seq<char>,
)
    requires
        no_fence_in(p1, 0, p1.len() as int),
        no_fence_in(b1, 0, b1.len() as int),
        no_fence_in(p2, 0, p2.len() as int),
        no_fence_in(b2, 0, b2.len() as int),
        no_fence_in(p3, 0, p3.len() as int),
        is_fence(o1),
        is_fence(c1),
        is_fence(o2),
        is_fence(c2),
        fence_annotation(o1) == Some(name),
        fence_annotation(o2) == Some(name),
    ensures
        extract(
            p1 + seq![o1] + b1 + seq![c1] + p2 + seq![o2] + b2 + seq![c2] + p3,
            implicit,
        ) == Some(seq![(name, b1 + b2)]),
{
    let d = p1 + seq![o1] + b1 + seq![c1] + p2 + seq![o2] + b2 + seq![c2] + p3;
    let a1 = p1.len() as int;
    let e1 = a1 + 1 + b1.len();
    let f = e1 + 1 + p2.len();
    let g = f + 1 + b2.len();
    let end = g + 1 + p3.len();
    assert(d.len() == end);
    assert(d.subrange(0, a1) =~= p1);
    assert(d[a1] == o1);
    assert(d.subrange(a1 + 1, e1) =~= b1);
    assert(d[e1] == c1);
    assert(d.subrange(e1 + 1, f) =~= p2);
    assert(d[f] == o2);
    assert(d.subrange(f + 1, g) =~= b2);
    assert(d[g] == c2);
    assert(d.subrange(g + 1, end) =~= p3);
    assert forall|k: int| 0 <= k < a1 implies !is_fence(#[trigger] d[k]) by {
        assert(d[k] == d.subrange(0, a1)[k]);
    }
    assert forall|k: int| a1 + 1 <= k < e1 implies !is_fence(#[trigger] d[k]) by {
        assert(d[k] == d.subrange(a1 + 1, e1)[k - a1 - 1]);
    }
    assert forall|k: int| e1 + 1 <= k < f implies !is_fence(#[trigger] d[k]) by {
        assert(d[k] == d.subrange(e1 + 1, f)[k - e1 - 1]);
    }
    assert forall|k: int| f + 1 <= k < g implies !is_fence(#[trigger] d[k]) by {
        assert(d[k] == d.subrange(f + 1, g)[k - f - 1]);
    }
    assert forall|k: int| g + 1 <= k < end implies !is_fence(#[trigger] d[k]) by {
        assert(d[k] == d.subrange(g + 1, end)[k - g - 1]);
    }
    let s0 = initial_scan();
    law_prose_is_ignored(d, implicit, 0, a1, s0);
    law_annotation_names_block(s0, o1, implicit, name);
    let m0 = seq![(name, Seq::<Seq<char>>::empty())];
    assert(with_target(s0.programs, name) =~= m0);
    let s1 = Scan { inside: true, target: name, programs: m0 };
    law_block_lines_go_to_target(d, implicit, a1 + 1, e1, s1);
    let m1 = seq![(name, b1)];
    assert(m0[0].1 + b1 =~= b1);
    assert(append_lines(m0, name, b1) =~= m1);
    let s2 = Scan { inside: false, target: name, programs: m1 };
    law_prose_is_ignored(d, implicit, e1 + 1, f, s2);
    law_annotation_names_block(s2, o2, implicit, name);
    assert(m1[0].0 == name);
    assert(has_target(m1, name));
    let s3 = Scan { inside: true, target: name, programs: m1 };
    law_block_lines_go_to_target(d, implicit, f + 1, g, s3);
    let m2 = seq![(name, b1 + b2)];
    assert(append_lines(m1, name, b2) =~= m2);
    let s4 = Scan { inside: false, target: name, programs: m2 };
    law_prose_is_ignored(d, implicit, g + 1, end, s4);
}

/// The characters `.md`.
pub open spec fn md_suffix() -> Seq<char> {
    seq!['.', 'm', 'd']
}

/// A document named `base.ext.md`, where `base` holds no `.` or `/`,
/// implies the program file `base.ext`.
pub proof fn law_document_name_implies_target(base: Seq<char>, ext: Seq<char>)
    requires
        base.len() > 0,
        ext.len() > 0,
        forall|m: int| 0 <= m < base.len() ==> #[trigger] base[m] != '.' && base[m] != '/',
    ensures
        source_name(base + seq!['.'] + ext + md_suffix()) == Some(base + seq!['.'] + ext),
{
    let s = base + seq!['.'] + ext + md_suffix();
    let t = s.subrange(0, s.len() - 3);
    assert(t =~= base + seq!['.'] + ext);
    assert(t.skip(0) =~= t);
    let j = base.len() as int;
    assert(t[j] == '.');
    assert forall|m: int| 0 <= m < j implies t[m] != '.' && t[m] != '/' by {
        assert(t[m] == base[m]);
    }
    assert(stem_dot_rest(t.skip(0)));
    assert(dot_slash_prefix(t, 0));
    assert(source_match_at(s, 0));
    assert(leftmost_source_match(s, 0));
    let p = choose|p: int| leftmost_source_match(s, p);
    assert(p == 0);
}

/// A document named `base.md`, where `base` holds no `.`, implies no
/// program file.
pub proof fn law_plain_document_name_implies_none(base: Seq<char>)
    requires
        forall|m: int| 0 <= m < base.len() ==> #[trigger] base[m] != '.',
    ensures
        source_name(base + md_suffix()) is None,
{
    let s = base + md_suffix();
    assert forall|p: int| !source_match_at(s, p) by {
        if source_match_at(s, p) {
            let t = s.subrange(p, s.len() - 3);
            let k = choose|k: int| #[trigger] dot_slash_prefix(t, k) && stem_dot_rest(t.skip(2 * k));
            assert(t =~= base.subrange(p, base.len() as int));
            if k > 0 {
                assert(t[0] == '.');
                assert(t[0] == base[p]);
            } else {
                let u = t.skip(0);
                let j = choose|j: int|
                    {
                        &&& 1 <= j
                        &&& j + 1 < u.len()
                        &&& u[j] == '.'
                        &&& forall|m: int| 0 <= m < j ==> u[m] != '.' && u[m] != '/'
                    };
                assert(u[j] == base[p + j]);
            }
        }
    }
}

/// Reading the first `n` lines with names ignored: whether they end inside a
/// block, and the lines read inside blocks, in order.
pub open spec fn content_scan(lines: Seq<Seq<char>>, n: int) -> (bool, Seq<Seq<char>>)
    decreases n,
{
    if n <= 0 {
        (false, Seq::empty())
    } else {
        let (inside, content) = content_scan(lines, n - 1);
        if is_fence(lines[n - 1]) {
            (!inside, content)
        } else if inside {
            (inside, content.push(lines[n - 1]))
        } else {
            (inside, content)
        }
    }
}

/// The lines of all fenced blocks of a document, in order.
pub open spec fn block_lines(lines: Seq<Seq<char>>) -> Seq<Seq<char>> {
    content_scan(lines, lines.len() as int).1
}

/// One of the first `n` lines is a fence.
pub open spec fn fenced_before(lines: Seq<Seq<char>>, n: int) -> bool {
    exists|k: int| 0 <= k < n && is_fence(#[trigger] lines[k])
}

proof fn lemma_implicit_scan(lines: Seq<Seq<char>>, name: Seq<char>, n: int)
    requires
        0 <= n <= lines.len(),
        forall|k: int|
            0 <= k < lines.len() && is_fence(#[trigger] lines[k]) ==> fence_annotation(lines[k]) is None,
    ensures
        fenced_before(lines, n) ==> scan_lines(lines, Some(name), n) == Some(
            Scan {
                inside: content_scan(lines, n).0,
                target: name,
                programs: seq![(name, content_scan(lines, n).1)],
            },
        ),
        !fenced_before(lines, n) ==> scan_lines(lines, Some(name), n) == Some(initial_scan())
            && content_scan(lines, n) == (false, Seq::<Seq<char>>::empty()),
    decreases n,
{
    if n > 0 {
        lemma_implicit_scan(lines, name, n - 1);
        let l = lines[n - 1];
        let (inside, content) = content_scan(lines, n - 1);
        if fenced_before(lines, n - 1) {
            let k = choose|k: int| 0 <= k < n - 1 && is_fence(#[trigger] lines[k]);
            assert(0 <= k < n && is_fence(lines[k]));
            let m = seq![(name, content)];
            assert(m[0].0 == name);
            if !is_fence(l) && inside {
                assert(append_line(m, name, l) =~= seq![(name, content.push(l))]);
            }
        } else {
            if is_fence(l) {
                assert(0 <= n - 1 < n && is_fence(lines[n - 1]));
                assert(with_target(Seq::<Entry>::empty(), name) =~= seq![(name, Seq::<Seq<char>>::empty())]);
            } else {
                assert forall|k: int| 0 <= k < n implies !is_fence(#[trigger] lines[k]) by {
                    if k < n - 1 {
                        assert(!(0 <= k < n - 1 && is_fence(lines[k])));
                    }
                }
            }
        }
    }
}

/// In a document with a fence line, whose fence lines hold no annotation and
/// whose name implies `name`, the lines of all blocks go to `name`, in order.
pub proof fn law_unannotated_blocks_go_to_implied_name(lines: Seq<Seq<char>>, name: Seq<char>)
    requires
        fenced_before(lines, lines.len() as int),
        forall|k: int|
            0 <= k < lines.len() && is_fence(#[trigger] lines[k]) ==> fence_annotation(lines[k]) is None,
    ensures
        extract(lines, Some(name)) == Some(seq![(name, block_lines(lines))]),
{
    lemma_implicit_scan(lines, name, lines.len() as int);
}

/// A document named `base.ext.md` with a fence line and no annotations gives
/// one program file, `base.ext`, holding the lines of all its blocks in order.
pub proof fn law_named_document_gives_its_file(
    base: Seq<char>,
    ext: Seq<char>,
    lines: Seq<Seq<char>>,
)
    requires
        base.len() > 0,
        ext.len() > 0,
        forall|m: int| 0 <= m < base.len() ==> #[trigger] base[m] != '.' && base[m] != '/',
        fenced_before(lines, lines.len() as int),
        forall|k: int|
            0 <= k < lines.len() && is_fence(#[trigger] lines[k]) ==> fence_annotation(lines[k]) is None,
    ensures
        extract(lines, source_name(base + seq!['.'] + ext + md_suffix())) == Some(
            seq![(base + seq!['.'] + ext, block_lines(lines))],
        ),
{
    law_document_name_implies_target(base, ext);
    law_unannotated_blocks_go_to_implied_name(lines, base + seq!['.'] + ext);
}

/// Reading the first `n` lines with names ignored: whether they end inside a
/// block, and the fence line that opened the last block.
pub open spec fn block_scan(lines: Seq<Seq<char>>, n: int) -> (bool, Seq<char>)
    decreases n,
{
    if n <= 0 {
        (false, Seq::empty())
    } else {
        let (inside, opener) = block_scan(lines, n - 1);
        if is_fence(lines[n - 1]) {
            if inside {
                (false, opener)
            } else {
                (true, lines[n - 1])
            }
        } else {
            (inside, opener)
        }
    }
}

/// The lines among the first `n` that stand inside a block whose target is
/// `name`, in document order.
pub open spec fn lines_for(
    lines: Seq<Seq<char>>,
    implicit: Option<Seq<char>>,
    name: Seq<char>,
    n: int,
) -> Seq<Seq<char>>
    decreases n,
{
    if n <= 0 {
        Seq::empty()
    } else {
        let prev = lines_for(lines, implicit, name, n - 1);
        let (inside, opener) = block_scan(lines, n - 1);
        if !is_fence(lines[n - 1]) && inside && block_target(opener, implicit) == Some(name) {
            prev.push(lines[n - 1])
        } else {
            prev
        }
    }
}

/// One of the first `n` lines opens a block whose target is `name`.
pub open spec fn opens_target(
    lines: Seq<Seq<char>>,
    implicit: Option<Seq<char>>,
    name: Seq<char>,
    n: int,
) -> bool {
    exists|k: int|
        0 <= k < n && is_fence(#[trigger] lines[k]) && !block_scan(lines, k).0 && block_target(
            lines[k],
            implicit,
        ) == Some(name)
}

proof fn lemma_scan_by_target(lines: Seq<Seq<char>>, implicit: Option<Seq<char>>, n: int)
    requires
        0 <= n <= lines.len(),
    ensures
        scan_lines(lines, implicit, n) matches Some(s) ==> {
            &&& s.inside == block_scan(lines, n).0
            &&& s.inside ==> block_target(block_scan(lines, n).1, implicit) == Some(s.target)
                && has_target(s.programs, s.target)
            &&& forall|i: int|
                0 <= i < s.programs.len() ==> (#[trigger] s.programs[i]).1 == lines_for(
                    lines,
                    implicit,
                    s.programs[i].0,
                    n,
                )
            &&& forall|name: Seq<char>|
                #[trigger] has_target(s.programs, name) == opens_target(lines, implicit, name, n)
            &&& forall|name: Seq<char>|
                !has_target(s.programs, name) ==> #[trigger] lines_for(lines, implicit, name, n)
                    == Seq::<Seq<char>>::empty()
        },
    decreases n,
{
    if n > 0 {
        lemma_scan_by_target(lines, implicit, n - 1);
        if let Some(s) = scan_lines(lines, implicit, n - 1) {
            let l = lines[n - 1];
            let m = s.programs;
            let (inside, opener) = block_scan(lines, n - 1);
            assert forall|name: Seq<char>|
                opens_target(lines, implicit, name, n) == (opens_target(
                    lines,
                    implicit,
                    name,
                    n - 1,
                ) || (is_fence(l) && !inside && block_target(l, implicit) == Some(name))) by {
                if opens_target(lines, implicit, name, n) {
                    let k = choose|k: int|
                        0 <= k < n && is_fence(#[trigger] lines[k]) && !block_scan(lines, k).0
                            && block_target(lines[k], implicit) == Some(name);
                    if k < n - 1 {
                        assert(opens_target(lines, implicit, name, n - 1));
                    }
                }
                if opens_target(lines, implicit, name, n - 1) {
                    let k = choose|k: int|
                        0 <= k < n - 1 && is_fence(#[trigger] lines[k]) && !block_scan(lines, k).0
                            && block_target(lines[k], implicit) == Some(name);
                    assert(0 <= k < n && is_fence(lines[k]));
                }
                if is_fence(l) && !inside && block_target(l, implicit) == Some(name) {
                    assert(is_fence(lines[n - 1]));
                }
            }
            assert forall|nm: Seq<char>| #[trigger] lines_for(lines, implicit, nm, n) == (if !is_fence(l)
                && inside && block_target(opener, implicit) == Some(nm) {
                lines_for(lines, implicit, nm, n - 1).push(l)
            } else {
                lines_for(lines, implicit, nm, n - 1)
            }) by {}
            if let Some(t) = scan_lines(lines, implicit, n) {
                let m2 = t.programs;
                if is_fence(l) && !inside {
                    let name = t.target;
                    assert(block_target(l, implicit) == Some(name));
                    if !has_target(m, name) {
                        assert(m2[m.len() as int].0 == name);
                        assert forall|nm: Seq<char>| #[trigger]
                            has_target(m2, nm) == (has_target(m, nm) || nm == name) by {
                            if has_target(m2, nm) && nm != name {
                                let i = choose|i: int| 0 <= i < m2.len() && #[trigger] m2[i].0 == nm;
                                assert(m2[i] == m[i]);
                            }
                            if has_target(m, nm) {
                                let i = choose|i: int| 0 <= i < m.len() && #[trigger] m[i].0 == nm;
                                assert(m2[i] == m[i]);
                            }
                        }
                        assert forall|i: int| 0 <= i < m2.len() implies (#[trigger] m2[i]).1
                            == lines_for(lines, implicit, m2[i].0, n) by {
                            if i < m.len() {
                                assert(m2[i] == m[i]);
                            } else {
                                assert(lines_for(lines, implicit, name, n - 1) == Seq::<
                                    Seq<char>,
                                >::empty());
                            }
                        }
                    } else {
                        assert forall|nm: Seq<char>| #[trigger]
                            has_target(m2, nm) == opens_target(lines, implicit, nm, n) by {
                            if nm == name {
                            }
                        }
                    }
                } else if !is_fence(l) && inside {
                    assert forall|i: int| 0 <= i < m2.len() implies (#[trigger] m2[i]).1
                        == lines_for(lines, implicit, m2[i].0, n) by {
                        assert(m2[i].0 == m[i].0);
                    }
                    assert forall|nm: Seq<char>| #[trigger]
                        has_target(m2, nm) == has_target(m, nm) by {
                        if has_target(m2, nm) {
                            let i = choose|i: int| 0 <= i < m2.len() && #[trigger] m2[i].0 == nm;
                            assert(m2[i].0 == m[i].0);
                        }
                        if has_target(m, nm) {
                            let i = choose|i: int| 0 <= i < m.len() && #[trigger] m[i].0 == nm;
                            assert(m2[i].0 == m[i].0);
                        }
                    }
                    assert(has_target(m2, t.target));
                }
            }
        }
    }
}

/// Each program file holds exactly the lines of the blocks whose target is
/// its name, in document order, and there is a file for each name that some
/// block's target is.
pub proof fn law_program_lines_by_target(lines: Seq<Seq<char>>, implicit: Option<Seq<char>>)
    requires
        extract(lines, implicit) is Some,
    ensures
        forall|i: int|
            0 <= i < extract(lines, implicit)->0.len() ==> (#[trigger] extract(
                lines,
                implicit,
            )->0[i]).1 == lines_for(lines, implicit, extract(lines, implicit)->0[i].0, lines.len() as int),
        forall|name: Seq<char>|
            #[trigger] has_target(extract(lines, implicit)->0, name) == opens_target(
                lines,
                implicit,
                name,
                lines.len() as int,
            ),
{
    lemma_scan_by_target(lines, implicit, lines.len() as int);
}

/// A document whose name implies a target always yields a program map.
pub proof fn law_implied_name_always_resolves(lines: Seq<Seq<char>>, name: Seq<char>)
    ensures
        extract(lines, Some(name)) is Some,
{
    lemma_scan_resolves(lines, name, lines.len() as int);
}

proof fn lemma_scan_resolves(lines: Seq<Seq<char>>, name: Seq<char>, n: int)
    ensures
        scan_lines(lines, Some(name), n) is Some,
    decreases n,
{
    if n > 0 {
        lemma_scan_resolves(lines, name, n - 1);
    }
}

/// In a document whose name implies no target, a block opened by a fence
/// line without annotation, wherever it stands, leaves no program map.
pub proof fn law_unannotated_block_unresolved_anywhere(lines: Seq<Seq<char>>, n: int)
    requires
        0 <= n < lines.len(),
        is_fence(lines[n]),
        !block_scan(lines, n).0,
        fence_annotation(lines[n]) is None,
    ensures
        extract(lines, None) is None,
{
    lemma_scan_by_target(lines, None, n);
    assert(scan_lines(lines, None, n + 1) is None);
    lemma_failure_persists(lines, None, n + 1, lines.len() as int);
}

/// A document named `base.md`, `base` without a dot, yields no program map
/// once one of its blocks is opened by a fence line without annotation.
pub proof fn law_plain_document_unresolved(base: Seq<char>, lines: Seq<Seq<char>>, n: int)
    requires
        forall|m: int| 0 <= m < base.len() ==> #[trigger] base[m] != '.',
        0 <= n < lines.len(),
        is_fence(lines[n]),
        !block_scan(lines, n).0,
        fence_annotation(lines[n]) is None,
    ensures
        extract(lines, source_name(base + md_suffix())) is None,
{
    law_plain_document_name_implies_none(base);
    law_unannotated_block_unresolved_anywhere(lines, n);
}

/// A document named `base.ext.md` always yields a program map; its file
/// `base.ext` holds the lines of the blocks without annotation and of those
/// annotated `base.ext`, in document order, and no others.
pub proof fn law_named_document_file_by_target(
    base: Seq<char>,
    ext: Seq<char>,
    lines: Seq<Seq<char>>,
)
    requires
        base.len() > 0,
        ext.len() > 0,
        forall|m: int| 0 <= m < base.len() ==> #[trigger] base[m] != '.' && base[m] != '/',
    ensures
        extract(lines, source_name(base + seq!['.'] + ext + md_suffix())) matches Some(m) &&
            forall|i: int|
            0 <= i < m.len() && (#[trigger] m[i]).0 == base + seq!['.'] + ext ==> m[i].1
                == lines_for(lines, Some(base + seq!['.'] + ext), base + seq!['.'] + ext, lines.len() as int),
{
    let name = base + seq!['.'] + ext;
    law_document_name_implies_target(base, ext);
    law_implied_name_always_resolves(lines, name);
    law_program_lines_by_target(lines, Some(name));
}

} // verus!
