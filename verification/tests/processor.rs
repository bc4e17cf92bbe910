use textpp::defs::Defs;
use textpp::error::{Error, ExprError};
use textpp::path::resolve;
use textpp::processor::{process_file, Processor, SourceFile};

fn defs_with(definitions: &[&str]) -> Defs {
    let mut defs = Defs::new();
    for definition in definitions {
        defs.define(definition);
    }
    defs
}

/// Runs the processor on `root`, and notes which files it asked for.
fn drive(
    files: &[(&str, &str)],
    definitions: &[&str],
    root: &str,
) -> (Result<String, Error>, Vec<String>) {
    let mut processor = Processor::new(root, defs_with(definitions));
    let mut asked = Vec::new();
    while let Some(path) = processor.awaited() {
        assert!(asked.len() < 1000);
        let content = files.iter().find(|(name, _)| *name == path).map(|(_, text)| *text);
        asked.push(path);
        processor.supply(content);
    }
    match processor.into_result() {
        Some(outcome) => (outcome, asked),
        None => unreachable!(),
    }
}

fn output(files: &[(&str, &str)], definitions: &[&str], root: &str) -> Result<String, Error> {
    drive(files, definitions, root).0
}

#[test]
fn paths_are_resolved_from_the_directory_of_the_file() {
    assert_eq!(resolve("input.md", "inc/part.txt"), "inc/part.txt");
    assert_eq!(resolve("dir/a.txt", "b.txt"), "dir/b.txt");
    assert_eq!(resolve("dir/sub/a.txt", "../b.txt"), "dir/sub/../b.txt");
    assert_eq!(resolve("/root/a.txt", "b.txt"), "/root/b.txt");
    assert_eq!(resolve("dir/a.txt", "/abs/b.txt"), "/abs/b.txt");
    assert_eq!(resolve("/", "b.txt"), "./b.txt");
    assert_eq!(resolve("", "b.txt"), "./b.txt");
    assert_eq!(resolve("a.txt", "b.txt"), "b.txt");
}

#[test]
fn a_processor_first_waits_for_its_root() {
    let processor = Processor::new("dir/root.md", Defs::new());
    assert_eq!(processor.awaited(), Some("dir/root.md".to_string()));
    assert_eq!(processor.into_result(), None);
}

#[test]
fn a_missing_root_gives_empty_output() {
    let (outcome, asked) = drive(&[], &[], "nowhere.md");
    assert_eq!(outcome, Ok(String::new()));
    assert_eq!(asked, vec!["nowhere.md".to_string()]);
}

#[test]
fn an_empty_root_gives_empty_output() {
    assert_eq!(output(&[("in", "")], &[], "in"), Ok(String::new()));
}

#[test]
fn a_finished_processor_stays_finished() {
    let mut processor = Processor::new("in", Defs::new());
    processor.supply(Some("a\n"));
    assert_eq!(processor.awaited(), None);
    processor.supply(Some("b\n"));
    processor.supply(None);
    assert_eq!(processor.awaited(), None);
    assert_eq!(processor.into_result(), Some(Ok("a\n".to_string())));
}

#[test]
fn a_failed_processor_stays_failed() {
    let mut processor = Processor::new("in", Defs::new());
    processor.supply(Some("a\n#endif\nb\n"));
    assert_eq!(processor.awaited(), None);
    processor.supply(Some("c\n"));
    assert_eq!(processor.into_result(), Some(Err(Error::EndifWithoutIf)));
}

#[test]
fn every_line_is_written_with_a_line_feed() {
    assert_eq!(output(&[("in", "a")], &[], "in"), Ok("a\n".to_string()));
    assert_eq!(output(&[("in", "a\nb")], &[], "in"), Ok("a\nb\n".to_string()));
    assert_eq!(output(&[("in", "a\r\nb\r\n")], &[], "in"), Ok("a\nb\n".to_string()));
    assert_eq!(output(&[("in", "\n\n")], &[], "in"), Ok("\n\n".to_string()));
    assert_eq!(output(&[("in", "a\r\r\n")], &[], "in"), Ok("a\r\n".to_string()));
}

#[test]
fn plain_text_passes_unchanged() {
    let text = "first line\n\n  indented $ and # and ## signs\n#notadirective\nlast $$ line\n";
    assert_eq!(output(&[("in", text)], &["A=1"], "in"), Ok(text.to_string()));
    let once = output(&[("in", "x $$A$$\n#ifdef A\ny\n#endif\n")], &["A=1"], "in").unwrap();
    assert_eq!(once, "x 1\ny\n");
    assert_eq!(output(&[("in", once.as_str())], &["A=1"], "in"), Ok(once.clone()));
}

#[test]
fn an_included_file_stands_in_place_of_its_include() {
    let files = [
        ("main.txt", "one\n#include \"part.txt\"\nthree\n"),
        ("part.txt", "two\n"),
    ];
    let (outcome, asked) = drive(&files, &[], "main.txt");
    assert_eq!(outcome, Ok("one\ntwo\nthree\n".to_string()));
    assert_eq!(asked, vec!["main.txt".to_string(), "part.txt".to_string()]);
}

#[test]
fn includes_are_resolved_from_the_including_file() {
    let files = [
        ("top.txt", "#include \"dir/a.txt\"\nend\n"),
        ("dir/a.txt", "a\n#include \"b.txt\"\n#include \"sub/c.txt\"\n"),
        ("dir/b.txt", "b\n"),
        ("dir/sub/c.txt", "c\n#include \"d.txt\"\n"),
        ("dir/sub/d.txt", "d\n"),
        ("b.txt", "wrong b\n"),
        ("d.txt", "wrong d\n"),
    ];
    let (outcome, asked) = drive(&files, &[], "top.txt");
    assert_eq!(outcome, Ok("a\nb\nc\nd\nend\n".to_string()));
    assert_eq!(
        asked,
        vec![
            "top.txt".to_string(),
            "dir/a.txt".to_string(),
            "dir/b.txt".to_string(),
            "dir/sub/c.txt".to_string(),
            "dir/sub/d.txt".to_string(),
        ]
    );
}

#[test]
fn a_file_can_be_included_twice() {
    let files = [
        ("main", "#include \"p\"\n-\n#include \"p\"\n"),
        ("p", "$$X$$\n"),
    ];
    assert_eq!(output(&files, &["X=v"], "main"), Ok("v\n-\nv\n".to_string()));
}

#[test]
fn a_missing_include_is_passed_over() {
    let files = [("main", "a\n#include \"gone\"\nb\n#include \"also/gone\"\n")];
    let (outcome, asked) = drive(&files, &[], "main");
    assert_eq!(outcome, Ok("a\nb\n".to_string()));
    assert_eq!(asked, vec!["main".to_string(), "gone".to_string(), "also/gone".to_string()]);
}

#[test]
fn includes_in_a_false_conditional_are_not_read() {
    let files = [
        ("main", "#ifdef NOPE\n#include \"a\"\n#else\n#include \"b\"\n#endif\n"),
        ("a", "A\n"),
        ("b", "B\n"),
    ];
    let (outcome, asked) = drive(&files, &[], "main");
    assert_eq!(outcome, Ok("B\n".to_string()));
    assert_eq!(asked, vec!["main".to_string(), "b".to_string()]);
}

#[test]
fn each_file_has_conditionals_of_its_own() {
    let files = [
        ("main", "#ifdef A\n#include \"part\"\n#endif\n"),
        ("part", "x\n#endif\n"),
    ];
    assert_eq!(output(&files, &["A"], "main"), Err(Error::EndifWithoutIf));
    let files = [
        ("main", "#ifdef A\n#include \"part\"\n#endif\n"),
        ("part", "x\n#else\n"),
    ];
    assert_eq!(output(&files, &["A"], "main"), Err(Error::ElseWithoutIf));
    let files = [
        ("main", "#include \"part\"\n#endif\n"),
        ("part", "#ifdef A\nx\n"),
    ];
    assert_eq!(output(&files, &["A"], "main"), Err(Error::MissingEndif));
}

#[test]
fn an_error_in_an_included_file_fails_the_run() {
    let files = [
        ("main", "a\n#include \"mid\"\nb\n"),
        ("mid", "m\n#include \"bad\"\nn\n"),
        ("bad", "#if (\n"),
    ];
    assert_eq!(
        output(&files, &[], "main"),
        Err(Error::Expression(ExprError::UnexpectedEnd))
    );
}

#[test]
fn unbalanced_conditionals_fail_with_their_errors() {
    assert_eq!(output(&[("in", "#else\nX\n")], &[], "in"), Err(Error::ElseWithoutIf));
    assert_eq!(output(&[("in", "#endif\nX\n")], &[], "in"), Err(Error::EndifWithoutIf));
    assert_eq!(output(&[("in", "#if VAR\nX\n")], &["VAR=1"], "in"), Err(Error::MissingEndif));
    assert_eq!(output(&[("in", "#ifdef A\n#ifdef B\n#endif\n")], &[], "in"), Err(Error::MissingEndif));
    assert_eq!(
        output(&[("in", "#ifdef A\n#endif\n#endif\n")], &[], "in"),
        Err(Error::EndifWithoutIf)
    );
    assert_eq!(
        output(&[("in", "#if (VAR &&)\nX\n#endif\n")], &["VAR=1"], "in"),
        Err(Error::Expression(ExprError::ExpectedValue))
    );
}

#[test]
fn an_expression_is_evaluated_even_where_nothing_is_emitted() {
    let files = [("in", "#ifdef NOPE\n#if (\n#endif\n#endif\n")];
    assert_eq!(output(&files, &[], "in"), Err(Error::Expression(ExprError::UnexpectedEnd)));
}

#[test]
fn defining_then_undefining_takes_the_else_branch() {
    let files = [("in", "#ifdef KEY\nyes\n#else\nno\n#endif\n")];
    assert_eq!(output(&files, &["KEY", "KEY="], "in"), Ok("no\n".to_string()));
    assert_eq!(output(&files, &["KEY=", "KEY"], "in"), Ok("yes\n".to_string()));
    assert_eq!(output(&files, &[], "in"), Ok("no\n".to_string()));
}

#[test]
fn a_second_else_is_ignored() {
    let files = [("in", "#ifdef A\n1\n#else\n2\n#else\n3\n#endif\n4\n")];
    assert_eq!(output(&files, &["A"], "in"), Ok("1\n4\n".to_string()));
    assert_eq!(output(&files, &[], "in"), Ok("2\n3\n4\n".to_string()));
}

#[test]
fn nested_conditionals_obey_the_outer_one() {
    let text = "#ifdef A\na\n#ifdef B\nab\n#else\na!b\n#endif\n#else\n!a\n#ifdef B\n!ab\n#else\n!a!b\n#endif\n#endif\n";
    let files = [("in", text)];
    assert_eq!(output(&files, &["A", "B"], "in"), Ok("a\nab\n".to_string()));
    assert_eq!(output(&files, &["A"], "in"), Ok("a\na!b\n".to_string()));
    assert_eq!(output(&files, &["B"], "in"), Ok("!a\n!ab\n".to_string()));
    assert_eq!(output(&files, &[], "in"), Ok("!a\n!a!b\n".to_string()));
}

#[test]
fn a_file_is_processed_up_to_its_include() {
    let defs = defs_with(&["V=1"]);
    let mut file = SourceFile::new("dir/f".to_string(), "a $$V$$\n#include \"g\"\nb\n#ifdef X\n");
    let mut out = String::from(">");
    assert_eq!(file.path(), "dir/f");
    assert_eq!(process_file(&mut file, &defs, &mut out), Ok(Some("g".to_string())));
    assert_eq!(out, ">a 1\n");
    assert_eq!(process_file(&mut file, &defs, &mut out), Err(Error::MissingEndif));
    assert_eq!(out, ">a 1\nb\n");
    let mut file = SourceFile::new("f".to_string(), "x\ny");
    assert_eq!(process_file(&mut file, &defs, &mut out), Ok(None));
    assert_eq!(out, ">a 1\nb\nx\ny\n");
    assert_eq!(process_file(&mut file, &defs, &mut out), Ok(None));
    assert_eq!(out, ">a 1\nb\nx\ny\n");
}

#[test]
fn a_failing_line_stays_the_next_line() {
    let defs = Defs::new();
    let mut file = SourceFile::new("f".to_string(), "a\n#endif\nb\n");
    let mut out = String::new();
    assert_eq!(process_file(&mut file, &defs, &mut out), Err(Error::EndifWithoutIf));
    assert_eq!(out, "a\n");
    assert_eq!(process_file(&mut file, &defs, &mut out), Err(Error::EndifWithoutIf));
    assert_eq!(out, "a\n");
}
