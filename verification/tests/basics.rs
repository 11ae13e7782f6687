// Unit tests of the type traversal, place handling, node naming, and
// control-flow edge emission.

use fact_emitter::ast::{
    AccessKind, BasicBlock, Expr, Parameter, Place, Program, Span, Statement, StatementKind, Ty,
    VariableDecl,
};
use fact_emitter::emitter::FactEmitter;
use fact_emitter::facts::Facts;

fn rf(origin: &str, ty: Ty) -> Ty {
    Ty::Ref { origin: origin.to_string(), ty: Box::new(ty) }
}

fn rfm(origin: &str, ty: Ty) -> Ty {
    Ty::RefMut { origin: origin.to_string(), ty: Box::new(ty) }
}

fn named_struct(name: &str, parameters: Vec<Parameter>) -> Ty {
    Ty::Struct { name: name.to_string(), parameters }
}

fn empty_program() -> Program {
    Program {
        struct_decls: vec![],
        fn_prototypes: vec![],
        variables: vec![],
        basic_blocks: vec![],
    }
}

#[test]
fn is_ref_on_each_shape() {
    assert!(!Ty::I32.is_ref());
    assert!(!Ty::Unit.is_ref());
    assert!(rf("'a", Ty::I32).is_ref());
    assert!(rfm("'a", Ty::I32).is_ref());
    assert!(!named_struct("S", vec![]).is_ref());
}

#[test]
fn origins_of_nested_refs() {
    let t = rf("'a", rfm("'b", Ty::I32));
    assert!(t.has_origins());
    let mut origins: Vec<String> = Vec::new();
    t.collect_origins_into(&mut origins);
    assert_eq!(origins, vec!["'a".to_string(), "'b".to_string()]);
}

#[test]
fn struct_parameter_scan_stops_at_first_type() {
    // Origin parameters are collected until the first type parameter,
    // whose own origins end the scan: later parameters are skipped.
    let t = named_struct(
        "S",
        vec![
            Parameter::Origin("'a".to_string()),
            Parameter::Ty(rf("'b", Ty::I32)),
            Parameter::Origin("'c".to_string()),
        ],
    );
    let mut origins: Vec<String> = Vec::new();
    t.collect_origins_into(&mut origins);
    assert_eq!(origins, vec!["'a".to_string(), "'b".to_string()]);
    assert!(t.has_origins());
    let bare = named_struct("S", vec![]);
    assert!(!bare.has_origins());
    let mut none: Vec<String> = Vec::new();
    bare.collect_origins_into(&mut none);
    assert!(none.is_empty());
}

#[test]
fn deref_base_strips_the_star() {
    let p = Place { base: "*x".to_string(), fields: vec![] };
    assert_eq!(p.deref_base(), Some("x"));
    let q = Place { base: "x".to_string(), fields: vec![] };
    assert_eq!(q.deref_base(), None);
}

#[test]
fn place_eq_compares_base_and_fields() {
    let a = Place { base: "x".to_string(), fields: vec!["f".to_string()] };
    let b = Place { base: "x".to_string(), fields: vec!["f".to_string()] };
    let c = Place { base: "x".to_string(), fields: vec!["g".to_string()] };
    let d = Place { base: "y".to_string(), fields: vec!["f".to_string()] };
    assert!(a.place_eq(&b));
    assert!(!a.place_eq(&c));
    assert!(!a.place_eq(&d));
    assert!(a.place_eq(&a.clone_place()));
}

#[test]
fn default_node_names_carry_the_index() {
    let emitter = FactEmitter::new(empty_program(), "", false);
    assert_eq!(emitter.node_at("bb0", 0), "bb0[0]");
    assert_eq!(emitter.node_at("start", 12), "start[12]");
    assert_eq!(emitter.node_at("b", 105), "b[105]");
}

#[test]
fn simple_node_names_linearise_blocks() {
    // Three blocks: two statements, then an empty block (one slot),
    // then one statement: letters a, b for the first block, c for the
    // empty one, d for the last.
    let mk = |name: &str, count: usize, succs: &[&str]| BasicBlock {
        name: name.to_string(),
        statements: (0..count)
            .map(|_| Statement {
                kind: StatementKind::Expr(Expr::Number { value: 0 }),
                span: Span { start: 0, end: 1 },
            })
            .collect(),
        successors: succs.iter().map(|s| s.to_string()).collect(),
    };
    let program = Program {
        struct_decls: vec![],
        fn_prototypes: vec![],
        variables: vec![],
        basic_blocks: vec![mk("bb0", 2, &[]), mk("bb1", 0, &[]), mk("bb2", 1, &[])],
    };
    let emitter = FactEmitter::new(program, "x;", true);
    assert_eq!(emitter.node_at("bb0", 0), "a");
    assert_eq!(emitter.node_at("bb0", 1), "b");
    assert_eq!(emitter.node_at("bb1", 0), "c");
    assert_eq!(emitter.node_at("bb2", 0), "d");
}

#[test]
fn cfg_edges_count_statements_and_successors() {
    // A block with n statements and k successors yields
    // max(n - 1, 0) + k edges; an empty block bridges its single
    // node into each successor.
    let mut input = String::new();
    let mut mk_stmt = |text: &str| {
        let start = input.chars().count();
        input.push_str(text);
        input.push(';');
        let end = input.chars().count();
        Statement {
            kind: StatementKind::Expr(Expr::Number { value: 7 }),
            span: Span { start, end },
        }
    };
    let s0 = mk_stmt("7");
    let s1 = mk_stmt("7");
    let s2 = mk_stmt("7");
    let program = Program {
        struct_decls: vec![],
        fn_prototypes: vec![],
        variables: vec![],
        basic_blocks: vec![
            BasicBlock {
                name: "bb0".to_string(),
                statements: vec![s0, s1, s2],
                successors: vec!["bb1".to_string(), "bb2".to_string()],
            },
            BasicBlock { name: "bb1".to_string(), statements: vec![], successors: vec![] },
            BasicBlock {
                name: "bb2".to_string(),
                statements: vec![],
                successors: vec!["bb1".to_string()],
            },
        ],
    };
    let emitter = FactEmitter::new(program, &input, false);
    let mut facts = Facts::new();
    emitter.emit_facts(&mut facts);
    let expected: Vec<(String, String)> = [
        ("bb0[0]", "bb0[1]"),
        ("bb0[1]", "bb0[2]"),
        ("bb0[2]", "bb1[0]"),
        ("bb0[2]", "bb2[0]"),
        ("bb2[0]", "bb1[0]"),
    ]
    .iter()
    .map(|(a, b)| (a.to_string(), b.to_string()))
    .collect();
    assert_eq!(facts.cfg_edge, expected);
}

#[test]
fn loans_through_fields_are_not_indexed() {
    // A borrow of a field place is ignored by the loan index, so a
    // later write to the same field place invalidates nothing.
    let mut input = String::new();
    let mut mk = |kind: StatementKind, text: &str| {
        let start = input.chars().count();
        input.push_str(text);
        input.push(';');
        let end = input.chars().count();
        Statement { kind, span: Span { start, end } }
    };
    let field_place = || Place { base: "s".to_string(), fields: vec!["f".to_string()] };
    let s0 = mk(
        StatementKind::Assign(
            Place { base: "r".to_string(), fields: vec![] },
            Expr::Access { kind: AccessKind::Borrow("'o".to_string()), place: field_place() },
        ),
        "r = &'o s.f",
    );
    let s1 = mk(
        StatementKind::Assign(field_place(), Expr::Number { value: 1 }),
        "s.f = 1",
    );
    let program = Program {
        struct_decls: vec![fact_emitter::ast::StructDecl {
            name: "S".to_string(),
            generic_decls: vec![],
            field_decls: vec![VariableDecl { name: "f".to_string(), ty: Ty::I32 }],
        }],
        fn_prototypes: vec![],
        variables: vec![
            VariableDecl { name: "s".to_string(), ty: named_struct("S", vec![]) },
            VariableDecl { name: "r".to_string(), ty: rf("'r", Ty::I32) },
        ],
        basic_blocks: vec![BasicBlock {
            name: "bb0".to_string(),
            statements: vec![s0, s1],
            successors: vec![],
        }],
    };
    let emitter = FactEmitter::new(program, &input, false);
    let mut facts = Facts::new();
    emitter.emit_facts(&mut facts);
    assert!(facts.invalidate_origin.is_empty());
    // The borrow still clears its origin, after the clear of the
    // assigned reference's origin.
    assert_eq!(facts.clear_origin, vec![
        ("'r".to_string(), "bb0[0]".to_string()),
        ("'o".to_string(), "bb0[0]".to_string()),
    ]);
}

#[test]
fn walk_resolves_types_through_generics() {
    let box_decl = fact_emitter::ast::StructDecl {
        name: "Holder".to_string(),
        generic_decls: vec![fact_emitter::ast::GenericDecl::Ty("T".to_string())],
        field_decls: vec![VariableDecl {
            name: "item".to_string(),
            ty: named_struct("T", vec![]),
        }],
    };
    let program = Program {
        struct_decls: vec![box_decl],
        fn_prototypes: vec![],
        variables: vec![VariableDecl {
            name: "h".to_string(),
            ty: named_struct("Holder", vec![Parameter::Ty(rf("'i", Ty::I32))]),
        }],
        basic_blocks: vec![],
    };
    let emitter = FactEmitter::new(program, "", false);
    let p = Place { base: "h".to_string(), fields: vec!["item".to_string()] };
    let origins = emitter.origins_of_place(&p);
    assert_eq!(origins, vec!["'i".to_string(), "'i".to_string()]);
    let tys = emitter.walk_place_tys(&p);
    assert_eq!(tys.len(), 2);
    assert!(matches!(tys[1], Ty::Ref { .. }));
    assert!(!emitter.ty_of_place(&Place { base: "h".to_string(), fields: vec![] }).is_ref());
}

#[test]
fn borrows_inside_calls_clear_their_origin() {
    // A borrow clears its origin wherever it occurs: as a call
    // argument on the right-hand side of an assignment, and inside a
    // standalone expression statement.
    let mut input = String::new();
    let mut mk = |kind: StatementKind, text: &str| {
        let start = input.chars().count();
        input.push_str(text);
        input.push(';');
        let end = input.chars().count();
        Statement { kind, span: Span { start, end } }
    };
    let x = || Place { base: "x".to_string(), fields: vec![] };
    let y = || Place { base: "y".to_string(), fields: vec![] };
    let s0 = mk(
        StatementKind::Assign(
            Place { base: "r".to_string(), fields: vec![] },
            Expr::Call {
                callee: "F".to_string(),
                arguments: vec![
                    Expr::Access { kind: AccessKind::Borrow("'a".to_string()), place: x() },
                    Expr::Access { kind: AccessKind::Copy, place: y() },
                ],
            },
        ),
        "r = F(&'a x, copy y)",
    );
    let s1 = mk(
        StatementKind::Expr(Expr::Access {
            kind: AccessKind::Borrow("'b".to_string()),
            place: x(),
        }),
        "&'b x",
    );
    let program = Program {
        struct_decls: vec![],
        fn_prototypes: vec![],
        variables: vec![
            VariableDecl { name: "x".to_string(), ty: Ty::I32 },
            VariableDecl { name: "y".to_string(), ty: rf("'y", Ty::I32) },
            VariableDecl { name: "r".to_string(), ty: Ty::I32 },
        ],
        basic_blocks: vec![BasicBlock {
            name: "bb0".to_string(),
            statements: vec![s0, s1],
            successors: vec![],
        }],
    };
    let emitter = FactEmitter::new(program, &input, false);
    let mut facts = Facts::new();
    emitter.emit_facts(&mut facts);
    // `r` has no origins, so only the borrows clear.
    assert_eq!(facts.clear_origin, vec![
        ("'a".to_string(), "bb0[0]".to_string()),
        ("'b".to_string(), "bb0[1]".to_string()),
    ]);
    // The copied reference `y` is read: its origin is accessed.
    assert_eq!(facts.access_origin, vec![("'y".to_string(), "bb0[0]".to_string())]);
    // Calls introduce no subsets yet; the borrow of `x` indexes a
    // loan, and the write to `r` touches no loan of `r`.
    assert!(facts.introduce_subset.is_empty());
    assert!(facts.invalidate_origin.is_empty());
    assert_eq!(facts.node_text, vec![
        ("r = F(&'a x, copy y)".to_string(), "bb0[0]".to_string()),
        ("&'b x".to_string(), "bb0[1]".to_string()),
    ]);
}
