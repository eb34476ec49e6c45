//! The block extractor: a scan over a document's lines that sorts the lines
//! of its fenced blocks by target file.

use vstd::prelude::*;
use crate::lines::{chars_of, lines_of, split_lines, view_lines};
use crate::resolve::{annotation_of, fence_annotation, is_fence, opt_view};

verus! {

/// A target file name and the lines collected for it.
pub type Entry = (Seq<char>, Seq<Seq<char>>);

/// The program map has a target name at most once.
pub open spec fn unique_targets(m: Seq<Entry>) -> bool {
    forall|i: int, j: int| 0 <= i < j < m.len() ==> #[trigger] m[i].0 != #[trigger] m[j].0
}

/// The program map holds an entry for `name`.
pub open spec fn has_target(m: Seq<Entry>, name: Seq<char>) -> bool {
    exists|i: int| 0 <= i < m.len() && #[trigger] m[i].0 == name
}

/// The program map with an entry for `name`, added empty where it lacked one.
pub open spec fn with_target(m: Seq<Entry>, name: Seq<char>) -> Seq<Entry> {
    if has_target(m, name) {
        m
    } else {
        m.push((name, Seq::empty()))
    }
}

/// The program map with `line` added at the end of the lines of `name`.
pub open spec fn append_line(m: Seq<Entry>, name: Seq<char>, line: Seq<char>) -> Seq<Entry> {
    Seq::new(m.len(), |i: int| if m[i].0 == name { (m[i].0, m[i].1.push(line)) } else { m[i] })
}

/// The target of a block opened by `line`: its annotation, else the
/// document's implied name.
pub open spec fn block_target(line: Seq<char>, implicit: Option<Seq<char>>) -> Option<Seq<char>> {
    match fence_annotation(line) {
        Some(name) => Some(name),
        None => implicit,
    }
}

/// Where a scan stands between two lines.
pub struct Scan {
    /// The last line read lies inside a fenced block.
    pub inside: bool,
    /// The target of the block the scan is in.
    pub target: Seq<char>,
    /// The lines collected so far, by target.
    pub programs: Seq<Entry>,
}

/// The scan before any line.
pub open spec fn initial_scan() -> Scan {
    Scan { inside: false, target: Seq::empty(), programs: Seq::empty() }
}

/// One line read: a fence opens a block (naming its target) or closes one;
/// another line is program text inside a block and prose outside. `None`
/// where a block has no target.
pub open spec fn step(s: Scan, line: Seq<char>, implicit: Option<Seq<char>>) -> Option<Scan> {
    if is_fence(line) {
        if s.inside {
            Some(Scan { inside: false, ..s })
        } else {
            match block_target(line, implicit) {
                Some(t) => Some(Scan { inside: true, target: t, programs: with_target(s.programs, t) }),
                None => None,
            }
        }
    } else if s.inside {
        Some(Scan { programs: append_line(s.programs, s.target, line), ..s })
    } else {
        Some(s)
    }
}

/// The scan after the first `n` lines; `None` once a block has no target.
pub open spec fn scan_lines(lines: Seq<Seq<char>>, implicit: Option<Seq<char>>, n: int) -> Option<Scan>
    decreases n,
{
    if n <= 0 {
        Some(initial_scan())
    } else {
        match scan_lines(lines, implicit, n - 1) {
            Some(s) => step(s, lines[n - 1], implicit),
            None => None,
        }
    }
}

/// The program map of a document given by its lines and implied name, or
/// `None` where one of its blocks has no target. A block left open at the end
/// keeps the lines it has.
pub open spec fn extract(lines: Seq<Seq<char>>, implicit: Option<Seq<char>>) -> Option<Seq<Entry>> {
    match scan_lines(lines, implicit, lines.len() as int) {
        Some(s) => Some(s.programs),
        None => None,
    }
}

/// The lines collected for one target file.
#[derive(Debug)]
pub struct Program {
    pub name: String,
    pub lines: Vec<String>,
}

impl View for Program {
    type V = Entry;

    open spec fn view(&self) -> Entry {
        (self.name@, view_lines(self.lines@))
    }
}

/// The entries held by a sequence of programs.
pub open spec fn view_programs(v: Seq<Program>) -> Seq<Entry> {
    v.map_values(|p: Program| p@)
}

/// Why a document yields no program map.
#[derive(Debug)]
pub enum ExtractError {
    /// A block has no annotation and the document's name implies none.
    UnresolvedTarget,
}

pub(crate) proof fn lemma_failure_persists(lines: Seq<Seq<char>>, implicit: Option<Seq<char>>, n: int, m: int)
    requires
        n <= m,
        scan_lines(lines, implicit, n) is None,
    ensures
        scan_lines(lines, implicit, m) is None,
    decreases m - n,
{
    if n < m {
        lemma_failure_persists(lines, implicit, n, m - 1);
    }
}

/// Whether `line` opens or closes a fenced block.
pub fn is_fence_line(line: &str) -> (r: bool)
    ensures
        r == is_fence(line@),
{
    let chars = chars_of(line);
    chars.len() >= 3 && chars[0] == '`' && chars[1] == '`' && chars[2] == '`'
}

/// The position of the entry named `name`, if `programs` holds one.
fn find_target(programs: &Vec<Program>, name: &String) -> (r: Option<usize>)
    ensures
        match r {
            Some(i) => i < programs@.len() && programs@[i as int].name@ == name@,
            None => !has_target(view_programs(programs@), name@),
        },
{
    let mut i: usize = 0;
    while i < programs.len()
        invariant
            i <= programs@.len(),
            forall|k: int| 0 <= k < i ==> programs@[k].name@ != name@,
        decreases programs.len() - i,
    {
        if programs[i].name == *name {
            return Some(i);
        }
        i = i + 1;
    }
    let ghost m = view_programs(programs@);
    assert forall|k: int| 0 <= k < m.len() implies m[k].0 != name@ by {
        assert(m[k] == programs@[k]@);
    }
    None
}

/// The program map of the document `text` whose name implies the target
/// `implicit`: for each target, the lines of the blocks that name it, in
/// document order. Fails where a block names no target and `implicit` is
/// `None`.
pub fn extract_programs(implicit: &Option<String>, text: &str) -> (r: Result<Vec<Program>, ExtractError>)
    ensures
        match r {
            Ok(ps) => extract(lines_of(text@), opt_view(*implicit)) == Some(view_programs(ps@)),
            Err(_) => extract(lines_of(text@), opt_view(*implicit)) is None,
        },
{
    let lines = split_lines(text);
    let ghost ls = lines_of(text@);
    let ghost imp = opt_view(*implicit);
    let mut programs: Vec<Program> = Vec::new();
    let mut inside = false;
    let mut cur: usize = 0;
    let ghost mut target: Seq<char> = Seq::empty();
    let mut i: usize = 0;
    assert(view_programs(programs@) == Seq::<Entry>::empty());
    while i < lines.len()
        invariant
            view_lines(lines@) == ls,
            ls == lines_of(text@),
            imp == opt_view(*implicit),
            i <= lines@.len(),
            scan_lines(ls, imp, i as int) == Some(
                Scan { inside, target, programs: view_programs(programs@) },
            ),
            unique_targets(view_programs(programs@)),
            inside ==> cur < programs@.len() && programs@[cur as int].name@ == target,
        decreases lines.len() - i,
    {
        let line = &lines[i];
        assert(ls[i as int] == line@);
        let ghost before = view_programs(programs@);
        if is_fence_line(line.as_str()) {
            if inside {
                inside = false;
            } else {
                let name = match annotation_of(line.as_str()) {
                    Some(n) => n,
                    None => match implicit {
                        Some(n) => n.clone(),
                        None => {
                            proof {
                                assert(fence_annotation(line@) is None);
                                assert(imp is None);
                                assert(scan_lines(ls, imp, i + 1) is None);
                                lemma_failure_persists(ls, imp, i + 1, ls.len() as int);
                            }
                            return Err(ExtractError::UnresolvedTarget);
                        },
                    },
                };
                match find_target(&programs, &name) {
                    Some(k) => {
                        cur = k;
                        assert(before[k as int].0 == name@);
                    },
                    None => {
                        let fresh = Program { name: name, lines: Vec::new() };
                        assert(view_lines(fresh.lines@) =~= Seq::<Seq<char>>::empty());
                        programs.push(fresh);
                        cur = programs.len() - 1;
                        assert(view_programs(programs@) =~= before.push((name@, Seq::empty())));
                    },
                }
                inside = true;
                proof {
                    target = name@;
                }
            }
        } else if inside {
            let text_line = line.clone();
            let ghost old_programs = programs@;
            programs[cur].lines.push(text_line);
            assert forall|k: int| 0 <= k < programs@.len() implies view_programs(programs@)[k]
                == append_line(before, target, line@)[k] by {
                if k == cur {
                    assert(programs@[k].lines@ == old_programs[k].lines@.push(text_line));
                    assert(view_lines(programs@[k].lines@) =~= view_lines(
                        old_programs[k].lines@,
                    ).push(line@));
                } else {
                    assert(before[k] == old_programs[k]@);
                    assert(before[cur as int] == old_programs[cur as int]@);
                    assert(before[k].0 != before[cur as int].0);
                }
            }
            assert(view_programs(programs@) =~= append_line(before, target, line@));
        }
        i = i + 1;
    }
    assert(lines@.len() == ls.len());
    Ok(programs)
}

} // verus!
