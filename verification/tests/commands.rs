use method_table::driver::{Action, Program, ProgramError};
use method_table::method_table::ClassError;

fn s(string: &str) -> String {
    string.to_string()
}

#[test]
fn test_parse_create_with_parent_and_methods() {
    let p = Program::new();
    assert_eq!(
        p.parse(s("class C : B f g")),
        Ok(Action::Create(s("C"), Some(s("B")), vec![s("f"), s("g")]))
    );
}

#[test]
fn test_parse_colon_without_spaces() {
    let p = Program::new();
    assert_eq!(
        p.parse(s("class C:B f")),
        Ok(Action::Create(s("C"), Some(s("B")), vec![s("f")]))
    );
}

#[test]
fn test_parse_create_without_parent() {
    let p = Program::new();
    assert_eq!(p.parse(s("class A")), Ok(Action::Create(s("A"), None, vec![])));
}

#[test]
fn test_parse_methods_without_parent() {
    let p = Program::new();
    assert_eq!(
        p.parse(s("class C f g")),
        Ok(Action::Create(s("C"), None, vec![s("f"), s("g")]))
    );
    assert_eq!(
        p.parse(s("class A B")),
        Ok(Action::Create(s("A"), None, vec![s("B")]))
    );
    assert_eq!(p.parse(s("class C f f")), Err(ProgramError::InvalidArguments));
}

#[test]
fn test_parse_action_word_is_lowered() {
    let p = Program::new();
    assert_eq!(p.parse(s("CLASS A")), Ok(Action::Create(s("A"), None, vec![])));
    assert_eq!(p.parse(s("DeScRiBiR A")), Ok(Action::Show(s("A"))));
    assert_eq!(p.parse(s("SALIR")), Ok(Action::Exit));
}

#[test]
fn test_parse_show_lines() {
    let p = Program::new();
    assert_eq!(p.parse(s("describir A")), Ok(Action::Show(s("A"))));
    assert_eq!(p.parse(s("describir")), Err(ProgramError::NotEnoughArgs));
    assert_eq!(p.parse(s("describir A B")), Err(ProgramError::InvalidArguments));
}

#[test]
fn test_parse_bad_lines() {
    let p = Program::new();
    assert_eq!(p.parse(s("")), Err(ProgramError::NoInput));
    assert_eq!(p.parse(s("   \t  ")), Err(ProgramError::NoInput));
    assert_eq!(p.parse(s("hacer A")), Err(ProgramError::InvalidAction(s("hacer"))));
    assert_eq!(p.parse(s("class")), Err(ProgramError::NotEnoughArgs));
    assert_eq!(p.parse(s("class A :")), Err(ProgramError::NotEnoughArgs));
}

#[test]
fn test_parse_duplicate_methods_rejected() {
    let p = Program::new();
    assert_eq!(
        p.parse(s("class C : B f g f")),
        Err(ProgramError::InvalidArguments)
    );
}

#[test]
fn test_parse_invalid_action_keeps_unknown_word_lowered() {
    let p = Program::new();
    // The whole first word runs through the lowering, not just its first
    // character.
    assert_eq!(p.parse(s("EXIT now")), Err(ProgramError::InvalidAction(s("exit"))));
}

#[test]
fn test_dispatch_runs_a_session() {
    let mut p = Program::new();
    assert!(p.should_run());

    assert_eq!(
        p.dispatch(Action::Create(s("B"), None, vec![s("f"), s("g")])),
        Ok(None)
    );
    assert_eq!(
        p.dispatch(Action::Create(s("C"), Some(s("B")), vec![s("g")])),
        Ok(None)
    );
    assert_eq!(
        p.dispatch(Action::Show(s("C"))),
        Ok(Some(s("\tf -> B :: f\n\tg -> C :: g\n")))
    );
    assert_eq!(
        p.dispatch(Action::Show(s("X"))),
        Err(ClassError::NotDefined(s("X")))
    );
    assert_eq!(
        p.dispatch(Action::Create(s("B"), None, vec![])),
        Err(ClassError::ClassRedefinition(s("B")))
    );

    assert!(p.should_run());
    assert_eq!(p.dispatch(Action::Exit), Ok(None));
    assert!(!p.should_run());
}

#[test]
fn test_exit_marks_program_stopped() {
    let mut p = Program::new();
    assert!(p.should_run());
    p.exit();
    assert!(!p.should_run());
}

#[test]
fn test_parsed_line_reaches_registry() {
    let mut p = Program::new();
    let act = p.parse(s("class B : B f")).err();
    assert_eq!(act, None);
    // "class B : B f" parses, and the registry then rejects the self-parent.
    let act = p.parse(s("class B : B f")).unwrap();
    assert_eq!(p.dispatch(act), Err(ClassError::CircularDependency));
}

#[test]
fn test_program_error_display() {
    assert_eq!(
        ProgramError::InvalidAction(s("foo")).display(),
        s("InvalidAction(\"foo\")")
    );
    assert_eq!(ProgramError::NoInput.display(), s("NoInput"));
    assert_eq!(ProgramError::NotEnoughArgs.display(), s("NotEnoughArgs"));
    assert_eq!(ProgramError::InvalidArguments.display(), s("InvalidArguments"));
}
