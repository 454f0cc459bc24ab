use mscope::{
    parse_declaration, semantic_analisis, well_formed_node, well_formed_program, AstNode, Entry,
    MutationVerb, ScopeKey,
};

fn name(s: &str) -> AstNode {
    AstNode::Name(s.to_string())
}

fn assign(target: &str, value: i32) -> AstNode {
    AstNode::MutationExpression {
        target: Box::new(name(target)),
        verb: MutationVerb::Equals,
        expr: Box::new(AstNode::Integer(value)),
    }
}

fn function(fn_name: &str, body: Vec<AstNode>) -> AstNode {
    AstNode::Function {
        name: Box::new(name(fn_name)),
        body: Box::new(AstNode::Block(body)),
    }
}

fn expect_variable(e: Entry) {
    match e {
        Entry::Variable { data_type } => assert_eq!(data_type, "Temporary Example Type"),
        Entry::NullEntry => panic!("expected a Variable entry, got the sentinel"),
    }
}

fn expect_null(e: Entry) {
    assert!(matches!(e, Entry::NullEntry));
}

#[test]
fn end_to_end_example() {
    // fn main() {
    //   { a = 1 }
    //   { a = 2 { b = 3 } }
    // }
    let program = vec![function(
        "main",
        vec![
            AstNode::Block(vec![assign("a", 1)]),
            AstNode::Block(vec![
                assign("a", 2),
                AstNode::Block(vec![assign("b", 3)]),
            ]),
        ],
    )];
    assert!(well_formed_program(&program));
    let table = semantic_analisis(program);

    // The bindings stand at [0,0], [0,1] and [0,1,0].
    expect_variable(table.check("a".to_string(), ScopeKey::from(vec![0, 0])));
    expect_variable(table.check("a".to_string(), ScopeKey::from(vec![0, 1])));
    expect_variable(table.check("b".to_string(), ScopeKey::from(vec![0, 1, 0])));

    // Inner scopes resolve through their ancestors.
    expect_variable(table.check("a".to_string(), ScopeKey::from(vec![0, 1, 0])));

    // A sibling scope does not see the nested binding.
    expect_null(table.check("b".to_string(), ScopeKey::from(vec![0, 0])));

    // Nothing is bound at the global scope or at the unused slot [1].
    expect_null(table.check("a".to_string(), ScopeKey::from(vec![])));
    expect_null(table.check("a".to_string(), ScopeKey::from(vec![1])));
}

#[test]
fn prefix_disjointness_between_functions() {
    // Each top-level function owns its own top-level scope slot.
    let program = vec![
        function("first", vec![assign("x", 1)]),
        function("second", vec![assign("y", 2)]),
    ];
    assert!(well_formed_program(&program));
    let table = semantic_analisis(program);
    expect_variable(table.check("x".to_string(), ScopeKey::from(vec![0])));
    expect_variable(table.check("y".to_string(), ScopeKey::from(vec![1])));
    expect_null(table.check("x".to_string(), ScopeKey::from(vec![1])));
    expect_null(table.check("y".to_string(), ScopeKey::from(vec![0])));
}

#[test]
fn sibling_numbering_skips_plain_statements() {
    // Plain statements between nested blocks consume no sibling slot.
    let program = vec![function(
        "main",
        vec![
            AstNode::Integer(7),
            AstNode::Block(vec![assign("c0", 1)]),
            name("z"),
            assign("w", 9),
            AstNode::Block(vec![assign("c1", 1)]),
            AstNode::Integer(8),
            AstNode::Block(vec![assign("c2", 1)]),
        ],
    )];
    assert!(well_formed_program(&program));
    let table = semantic_analisis(program);
    expect_variable(table.check("c0".to_string(), ScopeKey::from(vec![0, 0])));
    expect_variable(table.check("c1".to_string(), ScopeKey::from(vec![0, 1])));
    expect_variable(table.check("c2".to_string(), ScopeKey::from(vec![0, 2])));
    expect_null(table.check("c1".to_string(), ScopeKey::from(vec![0, 0])));
    expect_null(table.check("c2".to_string(), ScopeKey::from(vec![0, 1])));
    // The plain assignment binds in the function body's own scope.
    expect_variable(table.check("w".to_string(), ScopeKey::from(vec![0])));
}

#[test]
fn deeply_nested_blocks() {
    let program = vec![function(
        "main",
        vec![AstNode::Block(vec![AstNode::Block(vec![assign("a", 1)])])],
    )];
    assert!(well_formed_program(&program));
    let table = semantic_analisis(program);
    expect_variable(table.check("a".to_string(), ScopeKey::from(vec![0, 0, 0])));
    expect_null(table.check("a".to_string(), ScopeKey::from(vec![0, 0])));
}

#[test]
fn empty_program_and_empty_body() {
    let empty: Vec<AstNode> = vec![];
    assert!(well_formed_program(&empty));
    let table = semantic_analisis(empty);
    expect_null(table.check("x".to_string(), ScopeKey::from(vec![])));

    let program = vec![function("main", vec![])];
    assert!(well_formed_program(&program));
    let table = semantic_analisis(program);
    expect_null(table.check("x".to_string(), ScopeKey::from(vec![0])));
}

#[test]
fn declarations_contribute_no_binding() {
    // This minimal core registers bindings only at assignment targets.
    let program = vec![function(
        "main",
        vec![AstNode::Declaration {
            data_type: Box::new(name("int")),
            name: Box::new(name("d")),
            expr: Box::new(AstNode::Integer(4)),
        }],
    )];
    assert!(well_formed_program(&program));
    let table = semantic_analisis(program);
    expect_null(table.check("d".to_string(), ScopeKey::from(vec![0])));
}

#[test]
fn ill_formed_top_level_node() {
    let program = vec![AstNode::Block(vec![])];
    assert!(!well_formed_program(&program));
}

#[test]
fn ill_formed_function_body() {
    let program = vec![AstNode::Function {
        name: Box::new(name("main")),
        body: Box::new(AstNode::Integer(0)),
    }];
    assert!(!well_formed_program(&program));
}

#[test]
fn ill_formed_mutation_target() {
    let node = AstNode::Block(vec![AstNode::MutationExpression {
        target: Box::new(AstNode::Integer(1)),
        verb: MutationVerb::Equals,
        expr: Box::new(AstNode::Integer(2)),
    }]);
    assert!(!well_formed_node(&node));
    let program = vec![AstNode::Function {
        name: Box::new(name("main")),
        body: Box::new(node),
    }];
    assert!(!well_formed_program(&program));
}

#[test]
fn ill_formed_nested_mutation_target() {
    // A mutation whose target is itself a mutation is a structural error.
    let node = AstNode::Block(vec![AstNode::MutationExpression {
        target: Box::new(assign("x", 1)),
        verb: MutationVerb::PlusEquals,
        expr: Box::new(AstNode::Integer(2)),
    }]);
    assert!(!well_formed_node(&node));
}

#[test]
fn too_many_functions_are_rejected() {
    let program: Vec<AstNode> = (0..257).map(|_| function("f", vec![])).collect();
    assert!(!well_formed_program(&program));
}

#[test]
fn too_many_sibling_blocks_are_rejected() {
    let stmts: Vec<AstNode> = (0..257).map(|_| AstNode::Block(vec![])).collect();
    assert!(!well_formed_node(&AstNode::Block(stmts)));
    // 256 sibling blocks still fit the index range.
    let stmts: Vec<AstNode> = (0..256).map(|_| AstNode::Block(vec![])).collect();
    assert!(well_formed_node(&AstNode::Block(stmts)));
}

#[test]
fn parse_declaration_assembles_the_node() {
    let d = parse_declaration(name("int"), name("x"), AstNode::Integer(1));
    assert_eq!(
        d,
        AstNode::Declaration {
            data_type: Box::new(name("int")),
            name: Box::new(name("x")),
            expr: Box::new(AstNode::Integer(1)),
        }
    );
}

#[test]
fn plus_equals_target_binds_like_assignment() {
    let program = vec![function(
        "main",
        vec![AstNode::MutationExpression {
            target: Box::new(name("acc")),
            verb: MutationVerb::PlusEquals,
            expr: Box::new(AstNode::Integer(5)),
        }],
    )];
    assert!(well_formed_program(&program));
    let table = semantic_analisis(program);
    expect_variable(table.check("acc".to_string(), ScopeKey::from(vec![0])));
}
