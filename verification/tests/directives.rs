use textpp::cond::{CondFrame, CondStack};
use textpp::defs::Defs;
use textpp::directive::{classify, parse_include_path, process_line, Directive, Effect};
use textpp::error::{Error, ExprError};

fn defs_of(definitions: &[&str]) -> Defs {
    let mut defs = Defs::new();
    for definition in definitions {
        defs.define(definition);
    }
    defs
}

#[test]
fn a_new_stack_emits() {
    let stack = CondStack::new();
    assert_eq!(stack.depth(), 0);
    assert!(stack.is_emitting());
}

#[test]
fn a_conditional_emits_if_its_condition_holds() {
    let mut stack = CondStack::new();
    stack.open(true);
    assert_eq!(stack.depth(), 1);
    assert!(stack.is_emitting());
    assert_eq!(stack.close(), Ok(()));
    stack.open(false);
    assert!(!stack.is_emitting());
    assert_eq!(stack.close(), Ok(()));
    assert!(stack.is_emitting());
    assert_eq!(stack.depth(), 0);
}

#[test]
fn nothing_is_emitted_inside_a_false_conditional() {
    let mut stack = CondStack::new();
    stack.open(false);
    stack.open(true);
    assert!(!stack.is_emitting());
    assert_eq!(stack.flip(), Ok(()));
    assert!(!stack.is_emitting());
    assert_eq!(stack.close(), Ok(()));
    assert!(!stack.is_emitting());
    assert_eq!(stack.flip(), Ok(()));
    assert!(stack.is_emitting());
    stack.open(true);
    assert!(stack.is_emitting());
    stack.open(false);
    assert!(!stack.is_emitting());
    assert_eq!(stack.close(), Ok(()));
    assert!(stack.is_emitting());
    assert_eq!(stack.depth(), 2);
}

#[test]
fn only_the_first_else_turns_the_condition() {
    let mut stack = CondStack::new();
    stack.open(true);
    assert_eq!(stack.flip(), Ok(()));
    assert!(!stack.is_emitting());
    assert_eq!(stack.flip(), Ok(()));
    assert!(!stack.is_emitting());
    assert_eq!(stack.flip(), Ok(()));
    assert!(!stack.is_emitting());
    assert_eq!(stack.depth(), 1);

    let mut stack = CondStack::new();
    stack.open(false);
    assert_eq!(stack.flip(), Ok(()));
    assert!(stack.is_emitting());
    assert_eq!(stack.flip(), Ok(()));
    assert!(stack.is_emitting());
}

#[test]
fn else_and_endif_need_an_open_conditional() {
    let mut stack = CondStack::new();
    assert_eq!(stack.flip(), Err(Error::ElseWithoutIf));
    assert_eq!(stack.close(), Err(Error::EndifWithoutIf));
    assert_eq!(stack.depth(), 0);
    assert!(stack.is_emitting());
    stack.open(true);
    assert_eq!(stack.close(), Ok(()));
    assert_eq!(stack.close(), Err(Error::EndifWithoutIf));
    assert_eq!(stack.flip(), Err(Error::ElseWithoutIf));
}

#[test]
fn frames_can_be_compared() {
    let frame = CondFrame { parent_active: true, active: false, else_seen: false };
    assert_eq!(frame, frame.clone());
    assert_ne!(frame, CondFrame { parent_active: true, active: true, else_seen: false });
}

#[test]
fn lines_are_classified_by_their_keyword() {
    assert_eq!(classify("#include \"a.txt\""), Directive::Include("include \"a.txt\"".to_string()));
    assert_eq!(classify("#ifdef NAME"), Directive::Ifdef("NAME".to_string()));
    assert_eq!(classify("#ifndef NAME"), Directive::Ifndef("NAME".to_string()));
    assert_eq!(classify("#if A == 1"), Directive::If("A == 1".to_string()));
    assert_eq!(classify("#else"), Directive::Else);
    assert_eq!(classify("#endif"), Directive::Endif);
    assert_eq!(classify("text"), Directive::Content);
    assert_eq!(classify(""), Directive::Content);
}

#[test]
fn whitespace_may_follow_the_hash() {
    assert_eq!(classify("#  ifdef  NAME  "), Directive::Ifdef("NAME".to_string()));
    assert_eq!(classify("#\tif\tX\t"), Directive::If("X".to_string()));
    assert_eq!(classify("# else"), Directive::Else);
    assert_eq!(classify("#   endif"), Directive::Endif);
    assert_eq!(classify("#  include x  "), Directive::Include("include x  ".to_string()));
    assert_eq!(classify("#\u{a0}endif"), Directive::Endif);
}

#[test]
fn nothing_may_stand_before_the_hash() {
    assert_eq!(classify(" #include \"no.txt\""), Directive::Content);
    assert_eq!(classify(" #if X"), Directive::Content);
    assert_eq!(classify("\t#endif"), Directive::Content);
    assert_eq!(classify("x#else"), Directive::Content);
}

#[test]
fn keywords_are_prefixes() {
    assert_eq!(classify("#ifdefNAME"), Directive::Ifdef("NAME".to_string()));
    assert_eq!(classify("#ifndefNAME"), Directive::Ifndef("NAME".to_string()));
    assert_eq!(classify("#ifX"), Directive::If("X".to_string()));
    assert_eq!(classify("#iffy"), Directive::If("fy".to_string()));
    assert_eq!(classify("#elsewhere"), Directive::Else);
    assert_eq!(classify("#elif X"), Directive::Content);
    assert_eq!(classify("#endiffy"), Directive::Endif);
    assert_eq!(classify("#includes"), Directive::Include("includes".to_string()));
    assert_eq!(classify("#if"), Directive::If(String::new()));
    assert_eq!(classify("#ifdef"), Directive::Ifdef(String::new()));
}

#[test]
fn other_hash_lines_are_content() {
    assert_eq!(classify("#"), Directive::Content);
    assert_eq!(classify("# "), Directive::Content);
    assert_eq!(classify("#notadirective"), Directive::Content);
    assert_eq!(classify("#define X"), Directive::Content);
    assert_eq!(classify("#IF X"), Directive::Content);
    assert_eq!(classify("#Include x"), Directive::Content);
    assert_eq!(classify("##if"), Directive::Content);
    assert_eq!(classify("#i"), Directive::Content);
    assert_eq!(classify("#els"), Directive::Content);
    assert_eq!(classify("#end"), Directive::Content);
}

#[test]
fn the_path_of_an_include_loses_its_quotes() {
    let defs = Defs::new();
    assert_eq!(
        parse_include_path("include \"a/b.txt\"", &defs),
        Some("a/b.txt".to_string())
    );
    assert_eq!(parse_include_path("include a/b.txt", &defs), Some("a/b.txt".to_string()));
    assert_eq!(parse_include_path("include   \"x\"  ", &defs), Some("x".to_string()));
    assert_eq!(parse_include_path("include a\"b\"c\"", &defs), Some("abc".to_string()));
    assert_eq!(parse_include_path("include\"x\"", &defs), Some("x".to_string()));
    assert_eq!(parse_include_path("include \" x \"", &defs), Some(" x ".to_string()));
    assert_eq!(parse_include_path("includes", &defs), Some("s".to_string()));
}

#[test]
fn an_include_without_a_path_names_no_file() {
    let defs = Defs::new();
    assert_eq!(parse_include_path("include", &defs), None);
    assert_eq!(parse_include_path("include   ", &defs), None);
    assert_eq!(parse_include_path("include \"\"", &defs), None);
    assert_eq!(parse_include_path("include \"", &defs), None);
    assert_eq!(parse_include_path("include ##UNSET##", &defs), None);
    assert_eq!(parse_include_path("include \"##1##\"", &defs), None);
    assert_eq!(parse_include_path("inc", &defs), None);
    assert_eq!(parse_include_path("", &defs), None);
}

#[test]
fn hash_variables_are_replaced_in_the_path() {
    let defs = defs_of(&["SUF=x", "DIR=inc", "E="]);
    assert_eq!(
        parse_include_path("include \"inc/part_##SUF##.txt\"", &defs),
        Some("inc/part_x.txt".to_string())
    );
    assert_eq!(
        parse_include_path("include ##DIR##/##SUF##", &defs),
        Some("inc/x".to_string())
    );
    assert_eq!(parse_include_path("include a##E##b", &defs), Some("ab".to_string()));
    assert_eq!(parse_include_path("include a##NO##b", &defs), Some("ab".to_string()));
    assert_eq!(parse_include_path("include $$SUF$$", &defs), Some("$$SUF$$".to_string()));
    assert_eq!(parse_include_path("include #\"#SUF#\"#", &defs), Some("x".to_string()));
}

#[test]
fn a_content_line_is_emitted_with_its_variables_replaced() {
    let defs = defs_of(&["VAL=7"]);
    let mut stack = CondStack::new();
    assert_eq!(
        process_line(&mut stack, "val $$VAL$$", &defs),
        Ok(Effect::Emit("val 7".to_string()))
    );
    assert_eq!(
        process_line(&mut stack, "#notadirective $$VAL$$", &defs),
        Ok(Effect::Emit("#notadirective 7".to_string()))
    );
    assert_eq!(
        process_line(&mut stack, " #include \"no.txt\"", &defs),
        Ok(Effect::Emit(" #include \"no.txt\"".to_string()))
    );
    assert_eq!(process_line(&mut stack, "", &defs), Ok(Effect::Emit(String::new())));
    assert_eq!(stack.depth(), 0);
}

#[test]
fn lines_in_a_false_conditional_are_dropped() {
    let defs = defs_of(&["VAL=7"]);
    let mut stack = CondStack::new();
    assert_eq!(process_line(&mut stack, "#ifdef NOPE", &defs), Ok(Effect::Nothing));
    assert_eq!(process_line(&mut stack, "val $$VAL$$", &defs), Ok(Effect::Nothing));
    assert_eq!(process_line(&mut stack, "#include \"x\"", &defs), Ok(Effect::Nothing));
    assert_eq!(process_line(&mut stack, "#else", &defs), Ok(Effect::Nothing));
    assert_eq!(process_line(&mut stack, "val", &defs), Ok(Effect::Emit("val".to_string())));
    assert_eq!(
        process_line(&mut stack, "#include \"x\"", &defs),
        Ok(Effect::Include("x".to_string()))
    );
    assert_eq!(process_line(&mut stack, "#endif", &defs), Ok(Effect::Nothing));
    assert_eq!(stack.depth(), 0);
}

#[test]
fn conditionals_open_on_their_tests() {
    let defs = defs_of(&["A=1", "B="]);
    let mut stack = CondStack::new();
    assert_eq!(process_line(&mut stack, "#ifdef A", &defs), Ok(Effect::Nothing));
    assert!(stack.is_emitting());
    assert_eq!(process_line(&mut stack, "#ifndef A", &defs), Ok(Effect::Nothing));
    assert!(!stack.is_emitting());
    assert_eq!(process_line(&mut stack, "#endif", &defs), Ok(Effect::Nothing));
    assert_eq!(process_line(&mut stack, "#ifndef B", &defs), Ok(Effect::Nothing));
    assert!(stack.is_emitting());
    assert_eq!(process_line(&mut stack, "#if A == 2", &defs), Ok(Effect::Nothing));
    assert!(!stack.is_emitting());
    assert_eq!(process_line(&mut stack, "#if A == 1", &defs), Ok(Effect::Nothing));
    assert!(!stack.is_emitting());
    assert_eq!(stack.depth(), 4);
}

#[test]
fn an_include_without_a_path_asks_for_nothing() {
    let defs = Defs::new();
    let mut stack = CondStack::new();
    assert_eq!(process_line(&mut stack, "#include", &defs), Ok(Effect::Nothing));
    assert_eq!(process_line(&mut stack, "#include \"\"", &defs), Ok(Effect::Nothing));
    assert_eq!(process_line(&mut stack, "#include ##X##", &defs), Ok(Effect::Nothing));
}

#[test]
fn failing_lines_leave_the_stack_alone() {
    let defs = defs_of(&["VAR=1"]);
    let mut stack = CondStack::new();
    assert_eq!(process_line(&mut stack, "#else", &defs), Err(Error::ElseWithoutIf));
    assert_eq!(process_line(&mut stack, "#endif", &defs), Err(Error::EndifWithoutIf));
    assert_eq!(
        process_line(&mut stack, "#if (VAR &&)", &defs),
        Err(Error::Expression(ExprError::ExpectedValue))
    );
    assert_eq!(
        process_line(&mut stack, "#if", &defs),
        Err(Error::Expression(ExprError::UnexpectedEnd))
    );
    assert_eq!(stack.depth(), 0);
    stack.open(false);
    assert_eq!(
        process_line(&mut stack, "#if VAR &", &defs),
        Err(Error::Expression(ExprError::SingleAmpersand))
    );
    assert_eq!(stack.depth(), 1);
}
