//! Extraction of program files from literate markdown documents.
//!
//! A document holds prose and fenced code blocks. Each block is written to a
//! target file, named by an annotation on its opening fence or, failing that,
//! by the document's own name (`foo.rs.md` names `foo.rs`).

pub mod lines;
pub mod resolve;
pub mod extract;
pub mod mdlprs;
pub mod laws;

pub use extract::{extract_programs, ExtractError, Program};
pub use mdlprs::{render_program, Mdlprs};
