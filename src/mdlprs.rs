//! The extractor's settings, and the work it does on one document.

use vstd::prelude::*;
use crate::extract::{extract, extract_programs, view_programs, ExtractError, Program};
use crate::lines::{lines_of, view_lines};
use crate::resolve::{annotation_of, fence_annotation, opt_view, source_name, source_name_of};

verus! {

/// The documents to read, where to write the program files, and whether to
/// report progress.
pub struct Mdlprs {
    pub files: Vec<String>,
    pub output_directory: String,
    pub verbose_mode: bool,
}

/// The text of a program file: each line followed by a newline.
pub open spec fn rendered(lines: Seq<Seq<char>>) -> Seq<char>
    decreases lines.len(),
{
    if lines.len() == 0 {
        Seq::empty()
    } else {
        rendered(lines.drop_last()) + lines.last() + seq!['\n']
    }
}

impl Mdlprs {
    pub fn new(files: Vec<String>, output_directory: String, verbose_mode: bool) -> (r: Mdlprs)
        ensures
            r.files@ == files@,
            r.output_directory@ == output_directory@,
            r.verbose_mode == verbose_mode,
    {
        Mdlprs { files, output_directory, verbose_mode }
    }

    /// The program file name that the document path `file` implies
    /// (`foo.rs.md` implies `foo.rs`), if any.
    pub fn get_source_file_name_of(&self, file: &str) -> (r: Option<String>)
        ensures
            opt_view(r) == source_name(file@),
    {
        source_name_of(file)
    }

    /// The file name annotated on the fence line `md_line`
    /// (```` ```rust main.rs ```` names `main.rs`), if any.
    pub fn get_output_file_name_of(&self, md_line: &str) -> (r: Option<String>)
        ensures
            opt_view(r) == fence_annotation(md_line@),
    {
        annotation_of(md_line)
    }

    /// The program map of the document at path `file` with content `text`.
    pub fn extract_document(&self, file: &str, text: &str) -> (r: Result<Vec<Program>, ExtractError>)
        ensures
            match r {
                Ok(ps) => extract(lines_of(text@), source_name(file@)) == Some(view_programs(ps@)),
                Err(_) => extract(lines_of(text@), source_name(file@)) is None,
            },
    {
        let implicit = self.get_source_file_name_of(file);
        extract_programs(&implicit, text)
    }
}

/// The text to write for `program`: its lines, each ended by a newline.
pub fn render_program(program: &Program) -> (r: String)
    ensures
        r@ == rendered(view_lines(program.lines@)),
{
    let ghost ls = view_lines(program.lines@);
    let mut r = String::new();
    let mut i: usize = 0;
    while i < program.lines.len()
        invariant
            ls == view_lines(program.lines@),
            i <= program.lines@.len(),
            r@ == rendered(ls.take(i as int)),
        decreases program.lines.len() - i,
    {
        let line = &program.lines[i];
        r.append(line.as_str());
        r.push('\n');
        assert(ls.take(i + 1).drop_last() == ls.take(i as int));
        i = i + 1;
    }
    assert(ls.take(i as int) == ls);
    r
}

} // verus!
