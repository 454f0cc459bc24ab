use mscope::{display_error, CompilationError, Entry, ScopeKey, SymbolTable};

fn variable(data_type: &str) -> Entry {
    Entry::Variable { data_type: data_type.to_string() }
}

fn expect_variable(e: Entry, data_type: &str) {
    match e {
        Entry::Variable { data_type: d } => assert_eq!(d, data_type),
        Entry::NullEntry => panic!("expected a Variable entry, got the sentinel"),
    }
}

fn expect_null(e: Entry) {
    assert!(matches!(e, Entry::NullEntry));
}

#[test]
fn scope_key_push_does_not_mutate() {
    let k = ScopeKey::from(vec![0, 1]);
    let deeper = k.push(2);
    assert_eq!(k.size(), 2);
    assert_eq!(deeper.size(), 3);
    assert_eq!(deeper, ScopeKey::from(vec![0, 1, 2]));
    assert_ne!(deeper, k);
}

#[test]
fn scope_key_pop_returns_enclosing_scope() {
    let k = ScopeKey::from(vec![3, 7]);
    let up = k.pop();
    assert_eq!(k.size(), 2);
    assert_eq!(up, ScopeKey::from(vec![3]));
    assert!(up.pop().is_empty());
}

#[test]
fn scope_key_empty_is_global() {
    let global = ScopeKey::from(vec![]);
    assert!(global.is_empty());
    assert_eq!(global.size(), 0);
    assert!(!global.push(0).is_empty());
}

#[test]
fn lookup_exact_hit() {
    let mut t = SymbolTable::new();
    t.insert("x".to_string(), ScopeKey::from(vec![0]), variable("int"));
    expect_variable(t.check("x".to_string(), ScopeKey::from(vec![0])), "int");
}

#[test]
fn lookup_positive_inner_scope_sees_outer_binding() {
    // Bound at [0]; a query from the deeper scope [0, 5] falls back to it.
    let mut t = SymbolTable::new();
    t.insert("x".to_string(), ScopeKey::from(vec![0]), variable("int"));
    expect_variable(t.check("x".to_string(), ScopeKey::from(vec![0, 5])), "int");
    expect_variable(t.check("x".to_string(), ScopeKey::from(vec![0, 5, 9])), "int");
}

#[test]
fn lookup_negative_global_miss_returns_sentinel() {
    let mut t = SymbolTable::new();
    t.insert("x".to_string(), ScopeKey::from(vec![0]), variable("int"));
    expect_null(t.check("y".to_string(), ScopeKey::from(vec![])));
    // A binding below the global scope is invisible at the global scope.
    expect_null(t.check("x".to_string(), ScopeKey::from(vec![])));
}

#[test]
fn lookup_on_empty_table() {
    let t = SymbolTable::new();
    expect_null(t.check("anything".to_string(), ScopeKey::from(vec![0, 1, 2])));
}

#[test]
fn shadowing_nested_binding_wins_sibling_sees_outer() {
    let mut t = SymbolTable::new();
    t.insert("x".to_string(), ScopeKey::from(vec![0]), variable("outer"));
    t.insert("x".to_string(), ScopeKey::from(vec![0, 1]), variable("inner"));
    expect_variable(t.check("x".to_string(), ScopeKey::from(vec![0, 1])), "inner");
    expect_variable(t.check("x".to_string(), ScopeKey::from(vec![0, 2])), "outer");
    expect_variable(t.check("x".to_string(), ScopeKey::from(vec![0])), "outer");
}

#[test]
fn merge_of_disjoint_fragments_preserves_both_sides() {
    let mut t1 = SymbolTable::from(
        "x".to_string(),
        ScopeKey::from(vec![0]),
        variable("left"),
    );
    let t2 = SymbolTable::from("y".to_string(), ScopeKey::from(vec![1]), variable("right"));
    t1.merge(t2);
    expect_variable(t1.check("x".to_string(), ScopeKey::from(vec![0])), "left");
    expect_variable(t1.check("y".to_string(), ScopeKey::from(vec![1])), "right");
    expect_null(t1.check("y".to_string(), ScopeKey::from(vec![0])));
}

#[test]
fn merge_collision_incoming_entry_wins() {
    let mut t1 = SymbolTable::from("x".to_string(), ScopeKey::from(vec![0]), variable("old"));
    let t2 = SymbolTable::from("x".to_string(), ScopeKey::from(vec![0]), variable("new"));
    t1.merge(t2);
    expect_variable(t1.check("x".to_string(), ScopeKey::from(vec![0])), "new");
}

#[test]
fn insert_overwrites_on_equal_key() {
    let mut t = SymbolTable::new();
    t.insert("x".to_string(), ScopeKey::from(vec![2]), variable("first"));
    t.insert("x".to_string(), ScopeKey::from(vec![2]), variable("second"));
    expect_variable(t.check("x".to_string(), ScopeKey::from(vec![2])), "second");
}

#[test]
fn display_error_parsing_names_the_rule() {
    let msg = display_error(CompilationError::ParsingError("expr".to_string()));
    assert_eq!(msg, "parsing failed at rule expr");
}

#[test]
fn display_error_semantic() {
    let msg = display_error(CompilationError::SemanticError);
    assert_eq!(
        msg,
        "semantic analysis failed: structurally invalid syntax tree"
    );
}
