use mdlprs::{extract_programs, render_program, ExtractError, Mdlprs, Program};

fn tool() -> Mdlprs {
    Mdlprs::new(vec![], ".".to_string(), false)
}

fn names(programs: &[Program]) -> Vec<&str> {
    programs.iter().map(|p| p.name.as_str()).collect()
}

#[test]
fn new_keeps_settings() {
    let m = Mdlprs::new(vec!["a.rs.md".to_string()], "out".to_string(), true);
    assert_eq!(m.files, vec!["a.rs.md".to_string()]);
    assert_eq!(m.output_directory, "out");
    assert!(m.verbose_mode);
}

#[test]
fn source_name_of_extended_document() {
    let m = tool();
    assert_eq!(m.get_source_file_name_of("foo.rs.md"), Some("foo.rs".to_string()));
    assert_eq!(m.get_source_file_name_of("./foo.rs.md"), Some("./foo.rs".to_string()));
    assert_eq!(m.get_source_file_name_of("docs/foo.rs.md"), Some("foo.rs".to_string()));
    assert_eq!(m.get_source_file_name_of("a.tar.gz.md"), Some("a.tar.gz".to_string()));
    assert_eq!(m.get_source_file_name_of("../a.b.md"), Some("./a.b".to_string()));
    assert_eq!(m.get_source_file_name_of("a.b\nc.md"), Some("a.b\nc".to_string()));
}

#[test]
fn source_name_of_plain_document() {
    let m = tool();
    assert_eq!(m.get_source_file_name_of("readme.md"), None);
    assert_eq!(m.get_source_file_name_of("./readme.md"), None);
    assert_eq!(m.get_source_file_name_of("foo.rs"), None);
    assert_eq!(m.get_source_file_name_of(".md"), None);
}

#[test]
fn output_name_of_fence_lines() {
    let m = tool();
    assert_eq!(m.get_output_file_name_of("```rust bar.rs"), Some("bar.rs".to_string()));
    assert_eq!(m.get_output_file_name_of("```rust bar.rs trailing"), Some("bar.rs".to_string()));
    assert_eq!(m.get_output_file_name_of("```rust"), None);
    assert_eq!(m.get_output_file_name_of("```"), None);
    assert_eq!(m.get_output_file_name_of("```go util"), Some("util".to_string()));
    assert_eq!(m.get_output_file_name_of("```rust "), None);
    assert_eq!(m.get_output_file_name_of("```rust   "), None);
    assert_eq!(m.get_output_file_name_of("```rust  bar.rs"), Some("bar.rs".to_string()));
    assert_eq!(m.get_output_file_name_of("``` bar.rs"), Some("bar.rs".to_string()));
}

#[test]
fn no_blocks_nothing_to_process() {
    let r = extract_programs(&Some("a.rs".to_string()), "just prose\nand more\n").unwrap();
    assert!(r.is_empty());
    let r = extract_programs(&None, "").unwrap();
    assert!(r.is_empty());
}

#[test]
fn implied_name_collects_block() {
    let m = tool();
    let text = "intro\n```rust\nfn main() {}\n    let x = 1;\n```\n";
    let r = m.extract_document("main.rs.md", text).unwrap();
    assert_eq!(names(&r), vec!["main.rs"]);
    assert_eq!(r[0].lines, vec!["fn main() {}", "    let x = 1;"]);
    assert_eq!(render_program(&r[0]), "fn main() {}\n    let x = 1;\n");
}

#[test]
fn annotation_overrides_implied_name() {
    let m = tool();
    let text = "```rust bar.rs\nlet b = 2;\n```\n```rust\nlet f = 1;\n```\n";
    let r = m.extract_document("foo.rs.md", text).unwrap();
    assert_eq!(names(&r), vec!["bar.rs", "foo.rs"]);
    assert_eq!(r[0].lines, vec!["let b = 2;"]);
    assert_eq!(r[1].lines, vec!["let f = 1;"]);
}

#[test]
fn annotated_block_in_plain_document() {
    let m = tool();
    let r = m.extract_document("readme.md", "```sh run.sh\necho hi\n```\n").unwrap();
    assert_eq!(names(&r), vec!["run.sh"]);
    assert_eq!(r[0].lines, vec!["echo hi"]);
}

#[test]
fn blocks_of_one_name_merge() {
    let text = "```go util.go\nfunc a() {}\n```\nprose between\n```go util.go\nfunc b() {}\n```\n";
    let r = extract_programs(&None, text).unwrap();
    assert_eq!(names(&r), vec!["util.go"]);
    assert_eq!(r[0].lines, vec!["func a() {}", "func b() {}"]);
    assert_eq!(render_program(&r[0]), "func a() {}\nfunc b() {}\n");
}

#[test]
fn plain_document_unannotated_block_unresolved() {
    let m = tool();
    let text = "```go util.go\nfunc a() {}\n```\n```\nx\n```\n";
    let r = m.extract_document("readme.md", text);
    assert!(matches!(r, Err(ExtractError::UnresolvedTarget)));
    let r = m.extract_document("readme.md", "```\nx\n```\n");
    assert!(matches!(r, Err(ExtractError::UnresolvedTarget)));
}

#[test]
fn calc_scenario() {
    let m = tool();
    let text = "intro text\n```\ndef add(a, b):\n    return a + b\n```\nmore text\n```\ndef sub(a, b):\n    return a - b\n```\n";
    let r = m.extract_document("calc.py.md", text).unwrap();
    assert_eq!(names(&r), vec!["calc.py"]);
    assert_eq!(
        r[0].lines,
        vec!["def add(a, b):", "    return a + b", "def sub(a, b):", "    return a - b"]
    );
    assert_eq!(
        render_program(&r[0]),
        "def add(a, b):\n    return a + b\ndef sub(a, b):\n    return a - b\n"
    );
}

#[test]
fn same_document_same_output() {
    let m = tool();
    let text = "```\nx = 1\n```\n```py b.py\ny = 2\n```\n";
    let first = m.extract_document("a.py.md", text).unwrap();
    let second = m.extract_document("a.py.md", text).unwrap();
    assert_eq!(names(&first), names(&second));
    for (p, q) in first.iter().zip(second.iter()) {
        assert_eq!(render_program(p), render_program(q));
    }
}

#[test]
fn unterminated_block_is_kept() {
    let r = extract_programs(&Some("a.c".to_string()), "```\nint x;\nint y;").unwrap();
    assert_eq!(names(&r), vec!["a.c"]);
    assert_eq!(r[0].lines, vec!["int x;", "int y;"]);
}

#[test]
fn empty_block_gives_empty_file() {
    let r = extract_programs(&None, "```sh empty.sh\n```\n").unwrap();
    assert_eq!(names(&r), vec!["empty.sh"]);
    assert!(r[0].lines.is_empty());
    assert_eq!(render_program(&r[0]), "");
}

#[test]
fn crlf_lines_lose_terminator() {
    let r = extract_programs(&Some("w.txt".to_string()), "```\r\na\r\n\r\nb\r\n```\r\n").unwrap();
    assert_eq!(r[0].lines, vec!["a", "", "b"]);
}

#[test]
fn closing_fence_annotation_ignored() {
    let r = extract_programs(&Some("k.rs".to_string()), "```\nx\n``` other.rs\ny\n").unwrap();
    assert_eq!(names(&r), vec!["k.rs"]);
    assert_eq!(r[0].lines, vec!["x"]);
}

#[test]
fn unicode_lines_kept() {
    let r = extract_programs(&None, "```txt é.txt\nλ → μ\n```").unwrap();
    assert_eq!(names(&r), vec!["é.txt"]);
    assert_eq!(r[0].lines, vec!["λ → μ"]);
}

#[test]
fn trailing_space_fence_falls_back_to_implied_name() {
    let m = tool();
    let r = m.extract_document("foo.rs.md", "```rust \nlet a = 1;\n```\n").unwrap();
    assert_eq!(names(&r), vec!["foo.rs"]);
    assert_eq!(r[0].lines, vec!["let a = 1;"]);
    let r = m.extract_document("readme.md", "```rust \nlet a = 1;\n```\n");
    assert!(matches!(r, Err(ExtractError::UnresolvedTarget)));
}

#[test]
fn doubled_space_fence_names_first_token() {
    let r = extract_programs(&None, "```rust  bar.rs\nlet b = 2;\n```\n").unwrap();
    assert_eq!(names(&r), vec!["bar.rs"]);
    assert_eq!(r[0].lines, vec!["let b = 2;"]);
}
