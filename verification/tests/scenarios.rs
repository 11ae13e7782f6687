// End-to-end scenarios: whole programs run through the emitter, with
// every emitted relation checked against hand-derived expectations.

use fact_emitter::ast::{
    AccessKind, BasicBlock, Expr, Parameter, Place, Program, Span, Statement, StatementKind, Ty,
    VariableDecl,
};
use fact_emitter::emitter::{emit_facts, FactEmitter};
use fact_emitter::facts::Facts;

fn place(base: &str) -> Place {
    Place { base: base.to_string(), fields: vec![] }
}

fn place_field(base: &str, fields: &[&str]) -> Place {
    Place { base: base.to_string(), fields: fields.iter().map(|f| f.to_string()).collect() }
}

fn rf(origin: &str, ty: Ty) -> Ty {
    Ty::Ref { origin: origin.to_string(), ty: Box::new(ty) }
}

fn rfm(origin: &str, ty: Ty) -> Ty {
    Ty::RefMut { origin: origin.to_string(), ty: Box::new(ty) }
}

fn named_struct(name: &str, parameters: Vec<Parameter>) -> Ty {
    Ty::Struct { name: name.to_string(), parameters }
}

fn var(name: &str, ty: Ty) -> VariableDecl {
    VariableDecl { name: name.to_string(), ty }
}

fn borrow(origin: &str, p: Place) -> Expr {
    Expr::Access { kind: AccessKind::Borrow(origin.to_string()), place: p }
}

fn borrow_mut(origin: &str, p: Place) -> Expr {
    Expr::Access { kind: AccessKind::BorrowMut(origin.to_string()), place: p }
}

fn copy_of(p: Place) -> Expr {
    Expr::Access { kind: AccessKind::Copy, place: p }
}

fn move_of(p: Place) -> Expr {
    Expr::Access { kind: AccessKind::Move, place: p }
}

fn stmt(input: &mut String, kind: StatementKind, text: &str) -> Statement {
    let start = input.chars().count();
    input.push_str(text);
    input.push(';');
    let end = input.chars().count();
    Statement { kind, span: Span { start, end } }
}

fn block(name: &str, statements: Vec<Statement>, successors: &[&str]) -> BasicBlock {
    BasicBlock {
        name: name.to_string(),
        statements,
        successors: successors.iter().map(|s| s.to_string()).collect(),
    }
}

fn pairs(expected: &[(&str, &str)]) -> Vec<(String, String)> {
    expected.iter().map(|(a, b)| (a.to_string(), b.to_string())).collect()
}

fn triples(expected: &[(&str, &str, &str)]) -> Vec<(String, String, String)> {
    expected.iter().map(|(a, b, c)| (a.to_string(), b.to_string(), c.to_string())).collect()
}

/// S1: one block assigning a number, a shared borrow, and a mutable
/// borrow of the same variable.
fn basic_borrow_program() -> (Program, String) {
    let mut input = String::new();
    let statements = vec![
        stmt(
            &mut input,
            StatementKind::Assign(place("x"), Expr::Number { value: 22 }),
            "x = 22",
        ),
        stmt(
            &mut input,
            StatementKind::Assign(place("y"), borrow("'y", place("x"))),
            "y = &'y x",
        ),
        stmt(
            &mut input,
            StatementKind::Assign(place("z"), borrow_mut("'z", place("x"))),
            "z = &'z mut x",
        ),
    ];
    let program = Program {
        struct_decls: vec![],
        fn_prototypes: vec![],
        variables: vec![
            var("x", Ty::I32),
            var("y", rf("'y0", Ty::I32)),
            var("z", rfm("'z0", Ty::I32)),
        ],
        basic_blocks: vec![block("bb0", statements, &[])],
    };
    (program, input)
}

#[test]
fn basic_borrow() {
    let (program, input) = basic_borrow_program();
    let facts = emit_facts(program, &input);
    assert_eq!(facts.node_text, pairs(&[
        ("x = 22", "bb0[0]"),
        ("y = &'y x", "bb0[1]"),
        ("z = &'z mut x", "bb0[2]"),
    ]));
    assert_eq!(facts.cfg_edge, pairs(&[("bb0[0]", "bb0[1]"), ("bb0[1]", "bb0[2]")]));
    // The write to `x` invalidates both loans of `x`; so does the
    // second borrow, which is itself a write to `x`.
    assert_eq!(facts.invalidate_origin, pairs(&[
        ("'y", "bb0[0]"),
        ("'z", "bb0[0]"),
        ("'y", "bb0[2]"),
        ("'z", "bb0[2]"),
    ]));
    // Each assignment clears the origins of its left-hand side, then
    // each borrow clears the origin it re-issues.
    assert_eq!(facts.clear_origin, pairs(&[
        ("'y0", "bb0[1]"),
        ("'y", "bb0[1]"),
        ("'z0", "bb0[2]"),
        ("'z", "bb0[2]"),
    ]));
    assert_eq!(facts.access_origin, pairs(&[]));
    assert_eq!(facts.introduce_subset, triples(&[
        ("'y", "'y0", "bb0[1]"),
        ("'z", "'z0", "bb0[2]"),
    ]));
}

/// S2: copies and moves of plain integers produce no subsets and no
/// accesses, because `i32` carries no origins.
#[test]
fn copy_and_move() {
    let mut input = String::new();
    let statements = vec![
        stmt(&mut input, StatementKind::Assign(place("x"), Expr::Number { value: 22 }), "x = 22"),
        stmt(&mut input, StatementKind::Assign(place("y"), copy_of(place("x"))), "y = copy x"),
        stmt(&mut input, StatementKind::Assign(place("z"), move_of(place("x"))), "z = move x"),
    ];
    let program = Program {
        struct_decls: vec![],
        fn_prototypes: vec![],
        variables: vec![var("x", Ty::I32), var("y", Ty::I32), var("z", Ty::I32)],
        basic_blocks: vec![block("bb0", statements, &[])],
    };
    let facts = emit_facts(program, &input);
    assert!(facts.introduce_subset.is_empty());
    assert!(facts.access_origin.is_empty());
    assert!(facts.invalidate_origin.is_empty());
    assert!(facts.clear_origin.is_empty());
    assert_eq!(facts.cfg_edge, pairs(&[("bb0[0]", "bb0[1]"), ("bb0[1]", "bb0[2]")]));
}

/// S4: reading a reference out of a struct field accesses every
/// origin seen along the walk and flows the field's origin into the
/// assigned reference.
#[test]
fn struct_field() {
    let mut input = String::new();
    let statements = vec![stmt(
        &mut input,
        StatementKind::Assign(place("r"), copy_of(place_field("p", &["x"]))),
        "r = copy p.x",
    )];
    let pair_decl = fact_emitter::ast::StructDecl {
        name: "Pair".to_string(),
        generic_decls: vec![
            fact_emitter::ast::GenericDecl::Origin("'a".to_string()),
            fact_emitter::ast::GenericDecl::Origin("'b".to_string()),
        ],
        field_decls: vec![var("x", rf("'a", Ty::I32)), var("y", rf("'b", Ty::I32))],
    };
    let program = Program {
        struct_decls: vec![pair_decl],
        fn_prototypes: vec![],
        variables: vec![
            var(
                "p",
                named_struct(
                    "Pair",
                    vec![
                        Parameter::Origin("'a0".to_string()),
                        Parameter::Origin("'b0".to_string()),
                    ],
                ),
            ),
            var("r", rf("'r", Ty::I32)),
        ],
        basic_blocks: vec![block("bb0", statements, &[])],
    };
    let facts = emit_facts(program, &input);
    assert_eq!(facts.clear_origin, pairs(&[("'r", "bb0[0]")]));
    // The walk visits `Pair<'a0, 'b0>` (both origin parameters) and
    // then the field's declared type `&'a i32`.
    assert_eq!(facts.access_origin, pairs(&[
        ("'a0", "bb0[0]"),
        ("'b0", "bb0[0]"),
        ("'a", "bb0[0]"),
    ]));
    // The field's declared origin flows into the assigned reference.
    assert_eq!(facts.introduce_subset, triples(&[("'a", "'r", "bb0[0]")]));
    assert!(facts.invalidate_origin.is_empty());
}

/// S5: a reference substituted for a generic type parameter flows
/// covariantly into the assigned reference: exactly one subset.
#[test]
fn nested_generic_ref() {
    let mut input = String::new();
    let statements = vec![stmt(
        &mut input,
        StatementKind::Assign(place("r"), copy_of(place_field("b", &["v"]))),
        "r = copy b.v",
    )];
    let box_decl = fact_emitter::ast::StructDecl {
        name: "Box".to_string(),
        generic_decls: vec![fact_emitter::ast::GenericDecl::Ty("T".to_string())],
        field_decls: vec![var("v", named_struct("T", vec![]))],
    };
    let program = Program {
        struct_decls: vec![box_decl],
        fn_prototypes: vec![],
        variables: vec![
            var("b", named_struct("Box", vec![Parameter::Ty(rf("'b", Ty::I32))])),
            var("r", rf("'r", Ty::I32)),
        ],
        basic_blocks: vec![block("bb0", statements, &[])],
    };
    let facts = emit_facts(program, &input);
    assert_eq!(facts.introduce_subset, triples(&[("'b", "'r", "bb0[0]")]));
    // Both the struct's parameter scan and the substituted field type
    // yield the same origin: it is accessed twice.
    assert_eq!(facts.access_origin, pairs(&[("'b", "bb0[0]"), ("'b", "bb0[0]")]));
    assert_eq!(facts.clear_origin, pairs(&[("'r", "bb0[0]")]));
}

/// S6: re-borrowing mutably invalidates every loan recorded for the
/// borrowed place, including the one being issued.
#[test]
fn mutable_aliasing() {
    let mut input = String::new();
    let statements = vec![
        stmt(
            &mut input,
            StatementKind::Assign(place("u"), borrow_mut("'L", place("t"))),
            "u = &'L mut t",
        ),
        stmt(
            &mut input,
            StatementKind::Assign(place("u"), borrow_mut("'M", place("t"))),
            "u = &'M mut t",
        ),
    ];
    let program = Program {
        struct_decls: vec![],
        fn_prototypes: vec![],
        variables: vec![
            var("t", named_struct("T", vec![])),
            var("u", rfm("'u", named_struct("T", vec![]))),
        ],
        basic_blocks: vec![block("bb0", statements, &[])],
    };
    let facts = emit_facts(program, &input);
    assert_eq!(facts.clear_origin, pairs(&[
        ("'u", "bb0[0]"),
        ("'L", "bb0[0]"),
        ("'u", "bb0[1]"),
        ("'M", "bb0[1]"),
    ]));
    // A plain struct with no parameters has no origins to access.
    assert!(facts.access_origin.is_empty());
    // The loan index holds both loans of `t`, so each write to `t`
    // invalidates both.
    assert_eq!(facts.invalidate_origin, pairs(&[
        ("'L", "bb0[0]"),
        ("'M", "bb0[0]"),
        ("'L", "bb0[1]"),
        ("'M", "bb0[1]"),
    ]));
    assert_eq!(facts.introduce_subset, triples(&[
        ("'L", "'u", "bb0[0]"),
        ("'M", "'u", "bb0[1]"),
    ]));
}

/// S3: the six-node loop with unique references to a `Thing`,
/// dereferenced re-borrows, a call, empty pass-through blocks, and a
/// back edge, under the single-letter naming scheme.
fn loop_program() -> (Program, String) {
    let mut input = String::new();
    let bb0_stmts = vec![stmt(
        &mut input,
        StatementKind::Assign(place("temp"), borrow_mut("'L_Thing", place("thing"))),
        "temp = &'L_Thing mut thing",
    )];
    let bb1_stmts = vec![
        stmt(
            &mut input,
            StatementKind::Assign(place("t0"), borrow_mut("'L_*temp", place("*temp"))),
            "t0 = &'L_*temp mut *temp",
        ),
        stmt(
            &mut input,
            StatementKind::Assign(
                place("v"),
                Expr::Call {
                    callee: "MaybeNext".to_string(),
                    arguments: vec![move_of(place("t0"))],
                },
            ),
            "v = MaybeNext(move t0)",
        ),
    ];
    let bb2_stmts = vec![stmt(
        &mut input,
        StatementKind::Assign(place("temp"), move_of(place("v"))),
        "temp = move v",
    )];
    let thing = || named_struct("Thing", vec![]);
    let program = Program {
        struct_decls: vec![],
        fn_prototypes: vec![],
        variables: vec![
            var("thing", thing()),
            var("temp", rfm("'temp", thing())),
            var("t0", rfm("'t0", thing())),
            var("v", rfm("'v", thing())),
        ],
        basic_blocks: vec![
            block("bb0", bb0_stmts, &["bb1"]),
            block("bb1", bb1_stmts, &["bb2", "bb3"]),
            block("bb2", bb2_stmts, &["bb4"]),
            block("bb3", vec![], &["bb4"]),
            block("bb4", vec![], &["bb1"]),
        ],
    };
    (program, input)
}

#[test]
fn issue_47680() {
    let (program, input) = loop_program();
    let emitter = FactEmitter::new(program, &input, true);
    let mut facts = Facts::new();
    emitter.emit_facts(&mut facts);
    assert_eq!(facts.node_text, pairs(&[
        ("temp = &'L_Thing mut thing", "a"),
        ("t0 = &'L_*temp mut *temp", "b"),
        ("v = MaybeNext(move t0)", "c"),
        ("temp = move v", "d"),
    ]));
    assert_eq!(facts.cfg_edge, pairs(&[
        ("a", "b"),
        ("b", "c"),
        ("c", "d"),
        ("c", "e"),
        ("d", "f"),
        ("e", "f"),
        ("f", "b"),
    ]));
    assert_eq!(facts.access_origin, pairs(&[("'temp", "b"), ("'t0", "c"), ("'v", "d")]));
    assert_eq!(facts.invalidate_origin, pairs(&[("'L_Thing", "a"), ("'L_*temp", "b")]));
    assert_eq!(facts.clear_origin, pairs(&[
        ("'temp", "a"),
        ("'L_Thing", "a"),
        ("'t0", "b"),
        ("'L_*temp", "b"),
        ("'v", "c"),
        ("'temp", "d"),
    ]));
    assert_eq!(facts.introduce_subset, triples(&[
        ("'L_Thing", "'temp", "a"),
        ("'L_*temp", "'t0", "b"),
        ("'v", "'temp", "d"),
    ]));
}

/// The two naming modes emit the same facts modulo the node renaming
/// `bb0[0] -> a`, `bb1[0] -> b`, `bb1[1] -> c`, `bb2[0] -> d`,
/// `bb3[0] -> e`, `bb4[0] -> f`.
#[test]
fn mode_round_trip() {
    let (program, input) = loop_program();
    let emitter = FactEmitter::new(program, &input, false);
    let mut default_facts = Facts::new();
    emitter.emit_facts(&mut default_facts);
    let (program2, input2) = loop_program();
    let emitter2 = FactEmitter::new(program2, &input2, true);
    let mut simple_facts = Facts::new();
    emitter2.emit_facts(&mut simple_facts);

    let rename = |label: &String| -> String {
        match label.as_str() {
            "bb0[0]" => "a",
            "bb1[0]" => "b",
            "bb1[1]" => "c",
            "bb2[0]" => "d",
            "bb3[0]" => "e",
            "bb4[0]" => "f",
            other => panic!("unexpected node label {}", other),
        }
        .to_string()
    };
    let renamed: Vec<(String, String)> =
        default_facts.clear_origin.iter().map(|(o, n)| (o.clone(), rename(n))).collect();
    assert_eq!(renamed, simple_facts.clear_origin);
    let renamed: Vec<(String, String)> =
        default_facts.access_origin.iter().map(|(o, n)| (o.clone(), rename(n))).collect();
    assert_eq!(renamed, simple_facts.access_origin);
    let renamed: Vec<(String, String)> =
        default_facts.invalidate_origin.iter().map(|(o, n)| (o.clone(), rename(n))).collect();
    assert_eq!(renamed, simple_facts.invalidate_origin);
    let renamed: Vec<(String, String, String)> = default_facts
        .introduce_subset
        .iter()
        .map(|(a, b, n)| (a.clone(), b.clone(), rename(n)))
        .collect();
    assert_eq!(renamed, simple_facts.introduce_subset);
    let renamed: Vec<(String, String)> =
        default_facts.cfg_edge.iter().map(|(m, n)| (rename(m), rename(n))).collect();
    assert_eq!(renamed, simple_facts.cfg_edge);
}

/// For a given program and flags the emitted fact sequences are
/// identical across runs, duplicates and order included.
#[test]
fn deterministic_emission() {
    let (program, input) = basic_borrow_program();
    let first = emit_facts(program, &input);
    let (program, input) = basic_borrow_program();
    let second = emit_facts(program, &input);
    assert_eq!(first.access_origin, second.access_origin);
    assert_eq!(first.cfg_edge, second.cfg_edge);
    assert_eq!(first.clear_origin, second.clear_origin);
    assert_eq!(first.introduce_subset, second.introduce_subset);
    assert_eq!(first.invalidate_origin, second.invalidate_origin);
    assert_eq!(first.node_text, second.node_text);
}

/// The loop program's rendering, byte for byte: nodes in label
/// order, facts in the fixed sequence access, invalidate, clear,
/// subset, a `goto` line for every node, and `(pass)` for the empty
/// blocks' nodes.
#[test]
fn issue_47680_rendering() {
    let (program, input) = loop_program();
    let emitter = FactEmitter::new(program, &input, true);
    let mut facts = Facts::new();
    emitter.emit_facts(&mut facts);
    let mut expected = String::new();
    for line in [
        "a: \"temp = &'L_Thing mut thing\" {",
        "\tinvalidate_origin('L_Thing)",
        "\tclear_origin('temp)",
        "\tclear_origin('L_Thing)",
        "\tintroduce_subset('L_Thing, 'temp)",
        "\tgoto b",
        "}",
        "",
        "b: \"t0 = &'L_*temp mut *temp\" {",
        "\taccess_origin('temp)",
        "\tinvalidate_origin('L_*temp)",
        "\tclear_origin('t0)",
        "\tclear_origin('L_*temp)",
        "\tintroduce_subset('L_*temp, 't0)",
        "\tgoto c",
        "}",
        "",
        "c: \"v = MaybeNext(move t0)\" {",
        "\taccess_origin('t0)",
        "\tclear_origin('v)",
        "\tgoto d e",
        "}",
        "",
        "d: \"temp = move v\" {",
        "\taccess_origin('v)",
        "\tclear_origin('temp)",
        "\tintroduce_subset('v, 'temp)",
        "\tgoto f",
        "}",
        "",
        "e: \"(pass)\" {",
        "\tgoto f",
        "}",
        "",
        "f: \"(pass)\" {",
        "\tgoto b",
        "}",
    ] {
        expected.push_str(line);
        expected.push('\n');
    }
    assert_eq!(facts.render(), expected);
}

/// Quoting in a rendered header escapes quotes and backslashes.
#[test]
fn rendering_escapes_node_text() {
    let mut input = String::new();
    let statements = vec![stmt(
        &mut input,
        StatementKind::Assign(place("x"), Expr::Number { value: 1 }),
        "x = \"a\\b\"",
    )];
    let program = Program {
        struct_decls: vec![],
        fn_prototypes: vec![],
        variables: vec![var("x", Ty::I32)],
        basic_blocks: vec![
            block("bb0", statements, &["bb1"]),
            block("bb1", vec![], &[]),
        ],
    };
    let facts = emit_facts(program, &input);
    let expected = String::new()
        + "bb0[0]: \"x = \\\"a\\\\b\\\"\" {\n"
        + "\tgoto bb1[0]\n"
        + "}\n"
        + "\n"
        + "bb1[0]: \"(pass)\" {\n"
        + "\tgoto\n"
        + "}\n";
    assert_eq!(facts.render(), expected);
}
