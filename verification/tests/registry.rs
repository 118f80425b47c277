use method_table::method_table::{ClassError, ClassManager};

fn s(string: &str) -> String {
    string.to_string()
}

#[test]
fn test_valid_add() {
    let mut m = ClassManager::new();

    assert!(m.add(s("A"), None, vec![]).is_ok());
    assert!(m.add(s("B"), None, vec![s("f"), s("g")]).is_ok());
    assert!(m.add(s("C"), Some(s("B")), vec![s("h"), s("g")]).is_ok());
}

#[test]
fn test_invalid_add() {
    let mut m = ClassManager::new();

    assert_eq!(
        m.add(s("A"), Some(s("X")), vec![]),
        Err(ClassError::NotDefined(s("X")))
    );
    assert_eq!(m.add(s("A"), None, vec![]), Ok(()));
    assert_eq!(
        m.add(s("A"), None, vec![]),
        Err(ClassError::ClassRedefinition(s("A")))
    );
}

#[test]
fn test_override_resolution() {
    let mut m = ClassManager::new();

    assert_eq!(m.add(s("B"), None, vec![s("f"), s("g")]), Ok(()));
    assert_eq!(m.add(s("C"), Some(s("B")), vec![s("g"), s("h")]), Ok(()));
    // f stays owned by B; g is overridden by C; h is new in C.
    assert_eq!(
        m.show(s("C")),
        Ok(s("\tf -> B :: f\n\tg -> C :: g\n\th -> C :: h\n"))
    );
    // B's own view is untouched by C's override.
    assert_eq!(m.show(s("B")), Ok(s("\tf -> B :: f\n\tg -> B :: g\n")));
}

#[test]
fn test_inheritance_without_override() {
    let mut m = ClassManager::new();

    assert_eq!(m.add(s("A"), None, vec![]), Ok(()));
    assert_eq!(m.add(s("B"), Some(s("A")), vec![s("f")]), Ok(()));
    assert_eq!(m.add(s("C"), Some(s("B")), vec![]), Ok(()));
    assert_eq!(m.show(s("C")), Ok(s("\tf -> B :: f\n")));
}

#[test]
fn test_unknown_lookup() {
    let m = ClassManager::new();
    assert_eq!(m.show(s("X")), Err(ClassError::NotDefined(s("X"))));

    let mut m = ClassManager::new();
    assert_eq!(m.add(s("A"), None, vec![]), Ok(()));
    assert_eq!(m.show(s("X")), Err(ClassError::NotDefined(s("X"))));
}

#[test]
fn test_idempotent_read() {
    let mut m = ClassManager::new();

    assert_eq!(m.add(s("B"), None, vec![s("f"), s("g")]), Ok(()));
    let first = m.show(s("B"));
    let second = m.show(s("B"));
    assert_eq!(first, second);
}

#[test]
fn test_self_parent_rejected() {
    let mut m = ClassManager::new();
    assert_eq!(
        m.add(s("C"), Some(s("C")), vec![]),
        Err(ClassError::CircularDependency)
    );

    assert_eq!(m.add(s("A"), None, vec![]), Ok(()));
    assert_eq!(
        m.add(s("C"), Some(s("C")), vec![s("f")]),
        Err(ClassError::CircularDependency)
    );
}

#[test]
fn test_uniqueness_after_later_registrations() {
    let mut m = ClassManager::new();

    assert_eq!(m.add(s("A"), None, vec![]), Ok(()));
    assert_eq!(m.add(s("B"), Some(s("A")), vec![s("f")]), Ok(()));
    assert_eq!(m.add(s("C"), Some(s("B")), vec![]), Ok(()));
    assert_eq!(
        m.add(s("A"), None, vec![]),
        Err(ClassError::ClassRedefinition(s("A")))
    );
    assert_eq!(
        m.add(s("A"), Some(s("B")), vec![s("g")]),
        Err(ClassError::ClassRedefinition(s("A")))
    );
}

#[test]
fn test_reference_scenario() {
    let mut m = ClassManager::new();

    assert_eq!(m.add(s("A"), None, vec![]), Ok(()));
    assert_eq!(m.add(s("B"), None, vec![s("f"), s("g")]), Ok(()));
    assert_eq!(m.add(s("C"), Some(s("B")), vec![s("h"), s("g")]), Ok(()));
    assert_eq!(
        m.show(s("C")),
        Ok(s("\tf -> B :: f\n\tg -> C :: g\n\th -> C :: h\n"))
    );
    assert_eq!(
        m.add(s("A"), None, vec![]),
        Err(ClassError::ClassRedefinition(s("A")))
    );
    assert_eq!(
        m.add(s("D"), Some(s("X")), vec![]),
        Err(ClassError::NotDefined(s("X")))
    );
}

#[test]
fn test_empty_class_description() {
    let mut m = ClassManager::new();
    assert_eq!(m.add(s("A"), None, vec![]), Ok(()));
    assert_eq!(m.show(s("A")), Ok(s("")));
}

#[test]
fn test_parent_checked_before_methods() {
    let mut m = ClassManager::new();
    // The missing parent is reported even when methods are declared.
    assert_eq!(
        m.add(s("D"), Some(s("X")), vec![s("f"), s("g")]),
        Err(ClassError::NotDefined(s("X")))
    );
    // The failed registration left nothing behind.
    assert_eq!(m.show(s("D")), Err(ClassError::NotDefined(s("D"))));
}

#[test]
fn test_class_error_display() {
    assert_eq!(
        ClassError::NotDefined(s("X")).display(),
        s("NotDefined(\"X\")")
    );
    assert_eq!(
        ClassError::ClassRedefinition(s("A")).display(),
        s("ClassRedefinition(\"A\")")
    );
    assert_eq!(
        ClassError::CircularDependency.display(),
        s("CircularDependency")
    );
}
