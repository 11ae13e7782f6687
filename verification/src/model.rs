//! The mathematical model of fact emission: place resolution through
//! struct generics, the loan index, node naming, and the fact
//! sequences every statement contributes.

use vstd::prelude::*;

use crate::ast::{
    base_name, place_view, ty_origins, AccessKind, BasicBlock, Expr, GenericDecl, Name, Parameter,
    Place, Program, Statement, StatementKind, StructDecl, Ty, VariableDecl, is_ref_ty,
};
use crate::facts::{empty_view, AFacts, FactsView, NodeKey};
use crate::strutil::{dec_digits, valid_char_code};

verus! {

// ---------------------------------------------------------------------
// Place resolution
// ---------------------------------------------------------------------

/// The first variable declaration carrying `name`.
pub open spec fn find_variable(vars: Seq<VariableDecl>, name: Seq<char>) -> Option<VariableDecl>
    decreases vars.len(),
{
    if vars.len() == 0 {
        None
    } else if vars[0].name@ == name {
        Some(vars[0])
    } else {
        find_variable(vars.skip(1), name)
    }
}

/// The first struct declaration carrying `name`.
pub open spec fn find_struct(decls: Seq<StructDecl>, name: Seq<char>) -> Option<StructDecl>
    decreases decls.len(),
{
    if decls.len() == 0 {
        None
    } else if decls[0].name@ == name {
        Some(decls[0])
    } else {
        find_struct(decls.skip(1), name)
    }
}

/// The position of the first generic type parameter carrying `name`.
pub open spec fn generic_ty_position(gens: Seq<GenericDecl>, name: Seq<char>) -> Option<int>
    decreases gens.len(),
{
    if gens.len() == 0 {
        None
    } else {
        let found = match gens[0] {
            GenericDecl::Ty(n) => n@ == name,
            GenericDecl::Origin(_) => false,
        };
        if found {
            Some(0)
        } else {
            match generic_ty_position(gens.skip(1), name) {
                Some(i) => Some(i + 1),
                None => None,
            }
        }
    }
}

/// Whether one step from struct type `t` through field `field` is
/// defined: the struct and the field are declared, and a generic
/// field type has a type argument at the matching position.
pub open spec fn field_step_ok(program: Program, t: Ty, field: Seq<char>) -> bool {
    match t {
        Ty::Struct { name, parameters } => match find_struct(program.struct_decls@, name@) {
            Some(decl) => match find_variable(decl.field_decls@, field) {
                Some(fd) => match fd.ty {
                    Ty::Struct { name: field_ty_name, .. } => match generic_ty_position(
                        decl.generic_decls@,
                        field_ty_name@,
                    ) {
                        Some(i) => 0 <= i < parameters@.len() && parameters@[i] is Ty,
                        None => true,
                    },
                    _ => true,
                },
                None => false,
            },
            None => false,
        },
        _ => false,
    }
}

/// The type one step from struct type `t` through field `field`: the
/// field's declared type, with a generic struct name substituted by
/// the type argument at the matching parameter position.
pub open spec fn field_step(program: Program, t: Ty, field: Seq<char>) -> Ty {
    match t {
        Ty::Struct { name, parameters } => {
            let decl = find_struct(program.struct_decls@, name@).unwrap();
            let fd = find_variable(decl.field_decls@, field).unwrap();
            match fd.ty {
                Ty::Struct { name: field_ty_name, .. } => match generic_ty_position(
                    decl.generic_decls@,
                    field_ty_name@,
                ) {
                    Some(i) => match parameters@[i] {
                        Parameter::Ty(subst) => subst,
                        Parameter::Origin(_) => fd.ty,
                    },
                    None => fd.ty,
                },
                _ => fd.ty,
            }
        },
        _ => t,
    }
}

/// The type visited after following the first `n` fields of `place`,
/// starting from the base variable's declared type.
pub open spec fn ty_after(program: Program, place: Place, n: int) -> Ty
    decreases n,
{
    if n <= 0 {
        find_variable(program.variables@, base_name(place)).unwrap().ty
    } else {
        field_step(program, ty_after(program, place, n - 1), place.fields@[n - 1]@)
    }
}

/// Whether `place` resolves: its base names a declared variable, a
/// field path starts from a struct type, and every step is defined.
pub open spec fn resolve_ok(program: Program, place: Place) -> bool {
    &&& find_variable(program.variables@, base_name(place)) is Some
    &&& (place.fields@.len() > 0 ==> ty_after(program, place, 0) is Struct)
    &&& forall|n: int|
        0 <= n < place.fields@.len() ==> field_step_ok(
            program,
            #[trigger] ty_after(program, place, n),
            place.fields@[n]@,
        )
}

/// The type of the value named by `place`.
pub open spec fn resolved_ty(program: Program, place: Place) -> Ty {
    ty_after(program, place, place.fields@.len() as int)
}

/// The origins yielded by the walk of the first `n + 1` visited types
/// of `place`, in traversal order.
pub open spec fn origins_upto(program: Program, place: Place, n: int) -> Seq<Seq<char>>
    decreases n,
{
    if n <= 0 {
        ty_origins(ty_after(program, place, 0))
    } else {
        origins_upto(program, place, n - 1) + ty_origins(ty_after(program, place, n))
    }
}

/// The origins of `place`: every `Ref`/`RefMut` origin and origin
/// parameter in every type visited along the walk, in order.
pub open spec fn place_origins(program: Program, place: Place) -> Seq<Seq<char>> {
    origins_upto(program, place, place.fields@.len() as int)
}

// ---------------------------------------------------------------------
// The loan index
// ---------------------------------------------------------------------

/// One recorded loan: the borrowed place, the loan's origin, and the
/// location at which the borrow is issued.
pub type LoanEntry = ((Seq<char>, Seq<Seq<char>>), Seq<char>, (int, int));

/// The expression a statement evaluates.
pub open spec fn stmt_expr(s: Statement) -> Expr {
    match s.kind {
        StatementKind::Assign(_, e) => e,
        StatementKind::Expr(e) => e,
    }
}

/// The loan recorded for one statement: borrows of complete places
/// enter the index; everything else is ignored.
pub open spec fn stmt_loans(s: Statement, b: int, i: int) -> Seq<LoanEntry> {
    match stmt_expr(s) {
        Expr::Access { kind, place } => {
            let o = match kind {
                AccessKind::Borrow(o) => Some(o),
                AccessKind::BorrowMut(o) => Some(o),
                _ => None,
            };
            match o {
                Some(o) => if place.fields@.len() == 0 {
                    seq![(place_view(place), o@, (b, i))]
                } else {
                    Seq::empty()
                },
                None => Seq::empty(),
            }
        },
        _ => Seq::empty(),
    }
}

/// The loans recorded by the first `n` statements of block `b`.
pub open spec fn loans_in_stmts(ss: Seq<Statement>, b: int, n: int) -> Seq<LoanEntry>
    decreases n,
{
    if n <= 0 {
        Seq::empty()
    } else {
        loans_in_stmts(ss, b, n - 1) + stmt_loans(ss[n - 1], b, n - 1)
    }
}

/// The loans recorded by the first `n` blocks, in program order.
pub open spec fn loans_in_blocks(blocks: Seq<BasicBlock>, n: int) -> Seq<LoanEntry>
    decreases n,
{
    if n <= 0 {
        Seq::empty()
    } else {
        loans_in_blocks(blocks, n - 1) + loans_in_stmts(
            blocks[n - 1].statements@,
            n - 1,
            blocks[n - 1].statements@.len() as int,
        )
    }
}

/// The whole loan index, as a sequence in program order.
pub open spec fn program_loans(program: Program) -> Seq<LoanEntry> {
    loans_in_blocks(program.basic_blocks@, program.basic_blocks@.len() as int)
}

/// The origins of the loans among the first `n` entries whose place
/// equals `pv`, in order.
pub open spec fn matching_loans(entries: Seq<LoanEntry>, pv: (Seq<char>, Seq<Seq<char>>), n: int) -> Seq<
    Seq<char>,
>
    decreases n,
{
    if n <= 0 {
        Seq::empty()
    } else {
        matching_loans(entries, pv, n - 1) + if entries[n - 1].0 == pv {
            seq![entries[n - 1].1]
        } else {
            Seq::empty()
        }
    }
}

/// The origins of every loan of the place `pv`, in program order.
pub open spec fn loan_origins(program: Program, pv: (Seq<char>, Seq<Seq<char>>)) -> Seq<Seq<char>> {
    matching_loans(program_loans(program), pv, program_loans(program).len() as int)
}

// ---------------------------------------------------------------------
// Node naming
// ---------------------------------------------------------------------

/// The number of node slots a block occupies: one per statement, and
/// one for an empty block.
pub open spec fn block_slots(bb: BasicBlock) -> int {
    if bb.statements@.len() == 0 {
        1
    } else {
        bb.statements@.len() as int
    }
}

/// The number of node slots before the first block named `name`; the
/// sum over all blocks when no block carries the name.
pub open spec fn linear_start(blocks: Seq<BasicBlock>, name: Seq<char>) -> int
    decreases blocks.len(),
{
    if blocks.len() == 0 {
        0
    } else if blocks[0].name@ == name {
        0
    } else {
        block_slots(blocks[0]) + linear_start(blocks.skip(1), name)
    }
}

/// The character code of a node in the simplified naming scheme:
/// `'a'` plus the linearised statement index.
pub open spec fn simple_code(program: Program, block: Seq<char>, idx: int) -> int {
    97 + linear_start(program.basic_blocks@, block) + idx
}

/// The default node label, `block[idx]`.
pub open spec fn default_label(block: Seq<char>, idx: int) -> Seq<char> {
    block + seq!['['] + dec_digits(idx as nat) + seq![']']
}

/// The label of the node for statement `idx` of `block` under the
/// chosen naming scheme.
pub open spec fn node_label(program: Program, simple: bool, block: Seq<char>, idx: int) -> Seq<
    char,
> {
    if simple {
        seq![simple_code(program, block, idx) as char]
    } else {
        default_label(block, idx)
    }
}

/// The label of a node key under the chosen naming scheme.
pub open spec fn label_of(program: Program, simple: bool, k: NodeKey) -> Seq<char> {
    node_label(program, simple, k.block, k.idx)
}

// ---------------------------------------------------------------------
// Relabeling: from node keys to rendered labels
// ---------------------------------------------------------------------

/// The concrete fact view obtained by rendering every node key of
/// `af` with the chosen naming scheme.
pub open spec fn relabel(program: Program, simple: bool, af: AFacts) -> FactsView {
    FactsView {
        access_origin: af.access_origin.map_values(
            |p: (Seq<char>, NodeKey)| (p.0, label_of(program, simple, p.1)),
        ),
        cfg_edge: af.cfg_edge.map_values(
            |p: (NodeKey, NodeKey)| (label_of(program, simple, p.0), label_of(program, simple, p.1)),
        ),
        clear_origin: af.clear_origin.map_values(
            |p: (Seq<char>, NodeKey)| (p.0, label_of(program, simple, p.1)),
        ),
        introduce_subset: af.introduce_subset.map_values(
            |p: (Seq<char>, Seq<char>, NodeKey)| (p.0, p.1, label_of(program, simple, p.2)),
        ),
        invalidate_origin: af.invalidate_origin.map_values(
            |p: (Seq<char>, NodeKey)| (p.0, label_of(program, simple, p.1)),
        ),
        node_text: af.node_text.map_values(
            |p: (Seq<char>, NodeKey)| (p.0, label_of(program, simple, p.1)),
        ),
    }
}

pub broadcast proof fn lemma_empty_view(program: Program, simple: bool)
    ensures
        #[trigger] relabel(program, simple, AFacts::empty()) == empty_view(),
{
    assert(relabel(program, simple, AFacts::empty()) =~~= empty_view());
}

pub broadcast proof fn lemma_relabel_add(program: Program, simple: bool, a: AFacts, b: AFacts)
    ensures
        #[trigger] relabel(program, simple, a.add(b)) == relabel(program, simple, a).add_view(
            relabel(program, simple, b),
        ),
{
    assert(relabel(program, simple, a.add(b)) =~~= relabel(program, simple, a).add_view(
        relabel(program, simple, b),
    ));
}

// ---------------------------------------------------------------------
// Fact emission
// ---------------------------------------------------------------------

/// Pairs every origin with the node at which it is reported.
pub open spec fn with_node(os: Seq<Seq<char>>, k: NodeKey) -> Seq<(Seq<char>, NodeKey)> {
    os.map_values(|o: Seq<char>| (o, k))
}

/// Only `access_origin` facts.
pub open spec fn afacts_access(os: Seq<Seq<char>>, k: NodeKey) -> AFacts {
    AFacts { access_origin: with_node(os, k), ..AFacts::empty() }
}

/// Only `clear_origin` facts.
pub open spec fn afacts_clear(os: Seq<Seq<char>>, k: NodeKey) -> AFacts {
    AFacts { clear_origin: with_node(os, k), ..AFacts::empty() }
}

/// Only `invalidate_origin` facts.
pub open spec fn afacts_invalidate(os: Seq<Seq<char>>, k: NodeKey) -> AFacts {
    AFacts { invalidate_origin: with_node(os, k), ..AFacts::empty() }
}

/// Only `introduce_subset` facts.
pub open spec fn afacts_subsets(ss: Seq<(Seq<char>, Seq<char>, NodeKey)>) -> AFacts {
    AFacts { introduce_subset: ss, ..AFacts::empty() }
}

/// The facts of evaluating one expression at node `k`: borrows clear
/// their origin; a mutable borrow is a write, so it accesses the
/// borrowed place's origins and invalidates its recorded loans;
/// copies and moves are reads; calls evaluate their arguments.
pub open spec fn expr_afacts(program: Program, e: Expr, k: NodeKey) -> AFacts
    decreases e,
{
    match e {
        Expr::Number { .. } => AFacts::empty(),
        Expr::Access { kind, place } => match kind {
            AccessKind::Borrow(o) => afacts_clear(seq![o@], k),
            AccessKind::BorrowMut(o) => afacts_clear(seq![o@], k).add(
                afacts_access(place_origins(program, place), k),
            ).add(afacts_invalidate(loan_origins(program, place_view(place)), k)),
            AccessKind::Copy => afacts_access(place_origins(program, place), k),
            AccessKind::Move => afacts_access(place_origins(program, place), k),
        },
        Expr::Call { callee, arguments } => exprs_afacts(program, arguments@, arguments@.len() as int, k),
    }
}

/// The facts of evaluating the first `n` expressions, in order.
pub open spec fn exprs_afacts(program: Program, es: Seq<Expr>, n: int, k: NodeKey) -> AFacts
    decreases es, n,
{
    if n <= 0 || n > es.len() {
        AFacts::empty()
    } else {
        exprs_afacts(program, es, n - 1, k).add(expr_afacts(program, es[n - 1], k))
    }
}

/// Whether evaluating `e` resolves every place it reads.
pub open spec fn expr_ok(program: Program, e: Expr) -> bool
    decreases e,
{
    match e {
        Expr::Number { .. } => true,
        Expr::Access { kind, place } => match kind {
            AccessKind::Borrow(_) => true,
            _ => resolve_ok(program, place),
        },
        Expr::Call { callee, arguments } => exprs_ok(program, arguments@, arguments@.len() as int),
    }
}

/// Whether the first `n` expressions all resolve.
pub open spec fn exprs_ok(program: Program, es: Seq<Expr>, n: int) -> bool
    decreases es, n,
{
    if n <= 0 || n > es.len() {
        true
    } else {
        exprs_ok(program, es, n - 1) && expr_ok(program, es[n - 1])
    }
}

// ---------------------------------------------------------------------
// Subset introduction under variance
// ---------------------------------------------------------------------

/// The direction in which subset relationships flow when relating
/// parameterised types. Contravariant positions are unreachable in
/// today's type grammar but the rule is kept for future extension.
#[derive(Clone, Copy)]
pub enum Variance {
    Covariant,
    Contravariant,
    Invariant,
}

/// The variance for the referents of a reference pair: unique
/// references force invariance on their children.
pub open spec fn inner_variance(lhs_param: Ty, v: Variance) -> Variance {
    match lhs_param {
        Ty::RefMut { .. } => Variance::Invariant,
        _ => v,
    }
}

/// The subsets introduced for one matched reference pair: source
/// into target when covariant or invariant, target into source when
/// contravariant or invariant.
pub open spec fn variance_subsets(
    source: Seq<char>,
    target: Seq<char>,
    v: Variance,
    k: NodeKey,
) -> Seq<(Seq<char>, Seq<char>, NodeKey)> {
    let forward = match v {
        Variance::Contravariant => Seq::empty(),
        _ => seq![(source, target, k)],
    };
    let backward = match v {
        Variance::Covariant => Seq::empty(),
        _ => seq![(target, source, k)],
    };
    forward + backward
}

/// The subsets introduced by structurally relating two types under a
/// variance: structs are related parameter by parameter; matched
/// reference pairs relate their origins and recurse on the referents.
pub open spec fn relate_afacts(lhs: Ty, rhs: Ty, v: Variance, k: NodeKey) -> Seq<
    (Seq<char>, Seq<char>, NodeKey),
>
    decreases lhs,
{
    match (lhs, rhs) {
        (
            Ty::Struct { parameters: ls, .. },
            Ty::Struct { parameters: rs, .. },
        ) => params_relate(ls@, rs@, v, k, if ls@.len() <= rs@.len() { ls@.len() as int } else { rs@.len() as int }),
        _ => Seq::empty(),
    }
}

/// The subsets introduced by the first `n` parameter pairs.
pub open spec fn params_relate(
    ls: Seq<Parameter>,
    rs: Seq<Parameter>,
    v: Variance,
    k: NodeKey,
    n: int,
) -> Seq<(Seq<char>, Seq<char>, NodeKey)>
    decreases ls, n,
{
    if n <= 0 || n > ls.len() || n > rs.len() {
        Seq::empty()
    } else {
        params_relate(ls, rs, v, k, n - 1) + pair_relate(ls[n - 1], rs[n - 1], v, k)
    }
}

/// The subsets introduced by one parameter pair.
pub open spec fn pair_relate(l: Parameter, r: Parameter, v: Variance, k: NodeKey) -> Seq<
    (Seq<char>, Seq<char>, NodeKey),
>
    decreases l,
{
    match (l, r) {
        (
            Parameter::Ty(Ty::Ref { origin: target, ty: lt }),
            Parameter::Ty(Ty::Ref { origin: source, ty: rt }),
        ) => variance_subsets(source@, target@, v, k) + relate_afacts(
            *lt,
            *rt,
            inner_variance(Ty::Ref { origin: target, ty: lt }, v),
            k,
        ),
        (
            Parameter::Ty(Ty::RefMut { origin: target, ty: lt }),
            Parameter::Ty(Ty::RefMut { origin: source, ty: rt }),
        ) => variance_subsets(source@, target@, v, k) + relate_afacts(
            *lt,
            *rt,
            Variance::Invariant,
            k,
        ),
        (Parameter::Ty(lt), Parameter::Ty(rt)) => relate_afacts(lt, rt, v, k),
        _ => Seq::empty(),
    }
}

/// Whether relating two types never reaches an unsupported pairing
/// of generic parameters (an origin parameter on either side).
pub open spec fn relate_ok(lhs: Ty, rhs: Ty) -> bool
    decreases lhs,
{
    match (lhs, rhs) {
        (
            Ty::Struct { parameters: ls, .. },
            Ty::Struct { parameters: rs, .. },
        ) => params_relate_ok(ls@, rs@, if ls@.len() <= rs@.len() { ls@.len() as int } else { rs@.len() as int }),
        _ => true,
    }
}

/// Whether the first `n` parameter pairs are all supported.
pub open spec fn params_relate_ok(ls: Seq<Parameter>, rs: Seq<Parameter>, n: int) -> bool
    decreases ls, n,
{
    if n <= 0 || n > ls.len() || n > rs.len() {
        true
    } else {
        params_relate_ok(ls, rs, n - 1) && pair_relate_ok(ls[n - 1], rs[n - 1])
    }
}

/// Whether one parameter pair is supported.
pub open spec fn pair_relate_ok(l: Parameter, r: Parameter) -> bool
    decreases l,
{
    match (l, r) {
        (
            Parameter::Ty(Ty::Ref { ty: lt, .. }),
            Parameter::Ty(Ty::Ref { ty: rt, .. }),
        ) => relate_ok(*lt, *rt),
        (
            Parameter::Ty(Ty::RefMut { ty: lt, .. }),
            Parameter::Ty(Ty::RefMut { ty: rt, .. }),
        ) => relate_ok(*lt, *rt),
        (Parameter::Ty(lt), Parameter::Ty(rt)) => relate_ok(lt, rt),
        _ => false,
    }
}

/// Whether the fallthrough of subset introduction is silent: the
/// left-hand type carries no origins, the right-hand side is no
/// borrow, and a copied or moved right-hand type carries no origins.
pub open spec fn no_unprocessed_origins(program: Program, lhs_ty: Ty, e: Expr) -> bool {
    &&& ty_origins(lhs_ty).len() == 0
    &&& match e {
        Expr::Access { kind, place } => match kind {
            AccessKind::Borrow(_) => false,
            AccessKind::BorrowMut(_) => false,
            _ => resolve_ok(program, place) && ty_origins(resolved_ty(program, place)).len() == 0,
        },
        _ => true,
    }
}

/// Whether subset introduction for an assignment is defined: the
/// left-hand type and right-hand expression fall under one of the
/// supported shapes, and the fallthrough carries no origins.
pub open spec fn subset_ok(program: Program, lhs_ty: Ty, e: Expr) -> bool {
    match (lhs_ty, e) {
        (Ty::Ref { ty: lt, .. }, Expr::Access { kind: AccessKind::Borrow(_), place }) => {
            resolve_ok(program, place) && relate_ok(*lt, resolved_ty(program, place))
        },
        (Ty::Ref { ty: lt, .. }, Expr::Access { kind: AccessKind::Copy, place })
        | (Ty::Ref { ty: lt, .. }, Expr::Access { kind: AccessKind::Move, place }) => {
            &&& resolve_ok(program, place)
            &&& match resolved_ty(program, place) {
                Ty::Ref { ty: rt, .. } => relate_ok(*lt, *rt),
                _ => false,
            }
        },
        (Ty::RefMut { ty: lt, .. }, Expr::Access { kind: AccessKind::BorrowMut(_), place }) => {
            resolve_ok(program, place) && relate_ok(*lt, resolved_ty(program, place))
        },
        (Ty::RefMut { ty: lt, .. }, Expr::Access { kind: AccessKind::Copy, place })
        | (Ty::RefMut { ty: lt, .. }, Expr::Access { kind: AccessKind::Move, place }) => {
            &&& resolve_ok(program, place)
            &&& match resolved_ty(program, place) {
                Ty::RefMut { ty: rt, .. } => relate_ok(*lt, *rt),
                _ => false,
            }
        },
        (Ty::Struct { .. }, Expr::Access { kind: AccessKind::Copy, place })
        | (Ty::Struct { .. }, Expr::Access { kind: AccessKind::Move, place }) => {
            resolve_ok(program, place) && relate_ok(lhs_ty, resolved_ty(program, place))
        },
        (_, Expr::Call { .. }) => true,
        _ => no_unprocessed_origins(program, lhs_ty, e),
    }
}

/// The subsets introduced by an assignment: data flows from the
/// right-hand side into the left-hand side, so the right-hand origin
/// becomes a subset of the left-hand origin, and the referent types
/// are related under the variance the reference kind dictates.
pub open spec fn subset_afacts(program: Program, lhs_ty: Ty, e: Expr, k: NodeKey) -> Seq<
    (Seq<char>, Seq<char>, NodeKey),
> {
    match (lhs_ty, e) {
        (
            Ty::Ref { origin: target, ty: lt },
            Expr::Access { kind: AccessKind::Borrow(source), place },
        ) => seq![(source@, target@, k)] + relate_afacts(
            *lt,
            resolved_ty(program, place),
            Variance::Covariant,
            k,
        ),
        (Ty::Ref { origin: target, ty: lt }, Expr::Access { kind: AccessKind::Copy, place })
        | (Ty::Ref { origin: target, ty: lt }, Expr::Access { kind: AccessKind::Move, place }) => {
            match resolved_ty(program, place) {
                Ty::Ref { origin: source, ty: rt } => seq![(source@, target@, k)] + relate_afacts(
                    *lt,
                    *rt,
                    Variance::Covariant,
                    k,
                ),
                _ => Seq::empty(),
            }
        },
        (
            Ty::RefMut { origin: target, ty: lt },
            Expr::Access { kind: AccessKind::BorrowMut(source), place },
        ) => seq![(source@, target@, k)] + relate_afacts(
            *lt,
            resolved_ty(program, place),
            Variance::Invariant,
            k,
        ),
        (Ty::RefMut { origin: target, ty: lt }, Expr::Access { kind: AccessKind::Copy, place })
        | (Ty::RefMut { origin: target, ty: lt }, Expr::Access { kind: AccessKind::Move, place }) => {
            match resolved_ty(program, place) {
                Ty::RefMut { origin: source, ty: rt } => seq![(source@, target@, k)]
                    + relate_afacts(*lt, *rt, Variance::Invariant, k),
                _ => Seq::empty(),
            }
        },
        (Ty::Struct { .. }, Expr::Access { kind: AccessKind::Copy, place })
        | (Ty::Struct { .. }, Expr::Access { kind: AccessKind::Move, place }) => relate_afacts(
            lhs_ty,
            resolved_ty(program, place),
            Variance::Covariant,
            k,
        ),
        _ => Seq::empty(),
    }
}

// ---------------------------------------------------------------------
// Statements, blocks, and whole programs
// ---------------------------------------------------------------------

/// The source text recorded for a statement: its span trimmed of the
/// trailing separator character.
pub open spec fn stmt_text(input: Seq<char>, s: Statement) -> Seq<char> {
    input.subrange(s.span.start as int, s.span.end as int - 1)
}

/// Whether a statement is well formed against the program and the
/// input text: its span is a nonempty in-bounds range, the places it
/// touches resolve, and its subset introduction is defined.
pub open spec fn stmt_ok(program: Program, input: Seq<char>, s: Statement) -> bool {
    &&& s.span.start < s.span.end <= input.len()
    &&& match s.kind {
        StatementKind::Assign(place, e) => {
            &&& resolve_ok(program, place)
            &&& expr_ok(program, e)
            &&& subset_ok(program, resolved_ty(program, place), e)
        },
        StatementKind::Expr(e) => expr_ok(program, e),
    }
}

/// The facts emitted for one statement at index `i` of `block`.
pub open spec fn stmt_afacts(
    program: Program,
    input: Seq<char>,
    block: Seq<char>,
    i: int,
    s: Statement,
) -> AFacts {
    let k = NodeKey { block, idx: i };
    let text = AFacts { node_text: seq![(stmt_text(input, s), k)], ..AFacts::empty() };
    match s.kind {
        StatementKind::Assign(place, e) => {
            let lhs_ty = resolved_ty(program, place);
            let inval = if !is_ref_ty(lhs_ty) {
                afacts_invalidate(loan_origins(program, place_view(place)), k)
            } else {
                AFacts::empty()
            };
            text.add(afacts_clear(place_origins(program, place), k)).add(inval).add(
                expr_afacts(program, e, k),
            ).add(afacts_subsets(subset_afacts(program, lhs_ty, e, k)))
        },
        StatementKind::Expr(e) => text.add(expr_afacts(program, e, k)),
    }
}

/// The facts emitted for the first `n` statements of `block`.
pub open spec fn stmts_afacts(
    program: Program,
    input: Seq<char>,
    block: Seq<char>,
    ss: Seq<Statement>,
    n: int,
) -> AFacts
    decreases n,
{
    if n <= 0 {
        AFacts::empty()
    } else {
        stmts_afacts(program, input, block, ss, n - 1).add(
            stmt_afacts(program, input, block, n - 1, ss[n - 1]),
        )
    }
}

/// The control-flow edges of one block: statement-to-statement edges
/// in order, then one edge to the first node of each successor, in
/// declaration order.
pub open spec fn block_cfg(bb: BasicBlock) -> Seq<(NodeKey, NodeKey)> {
    let n = bb.statements@.len() as int;
    let intra = Seq::new(
        (if n > 0 {
            n - 1
        } else {
            0
        }) as nat,
        |i: int|
            (
                NodeKey { block: bb.name@, idx: i },
                NodeKey { block: bb.name@, idx: i + 1 },
            ),
    );
    let last = NodeKey { block: bb.name@, idx: block_slots(bb) - 1 };
    intra + bb.successors@.map_values(
        |s: Name| (last, NodeKey { block: s@, idx: 0 }),
    )
}

/// Only `cfg_edge` facts.
pub open spec fn afacts_cfg(es: Seq<(NodeKey, NodeKey)>) -> AFacts {
    AFacts { cfg_edge: es, ..AFacts::empty() }
}

/// The facts emitted for one block: its control-flow edges, then the
/// facts of its statements in order.
pub open spec fn block_afacts(program: Program, input: Seq<char>, bb: BasicBlock) -> AFacts {
    afacts_cfg(block_cfg(bb)).add(
        stmts_afacts(program, input, bb.name@, bb.statements@, bb.statements@.len() as int),
    )
}

/// The facts emitted for the first `n` blocks.
pub open spec fn blocks_afacts(program: Program, input: Seq<char>, n: int) -> AFacts
    decreases n,
{
    if n <= 0 {
        AFacts::empty()
    } else {
        blocks_afacts(program, input, n - 1).add(
            block_afacts(program, input, program.basic_blocks@[n - 1]),
        )
    }
}

/// Every fact the emitter produces for a program, with nodes kept as
/// positions. The emitted output is `relabel` of this value.
pub open spec fn program_afacts(program: Program, input: Seq<char>) -> AFacts {
    blocks_afacts(program, input, program.basic_blocks@.len() as int)
}

/// Whether every statement of every block is well formed.
pub open spec fn program_ok(program: Program, input: Seq<char>) -> bool {
    forall|b: int, i: int|
        0 <= b < program.basic_blocks@.len() && 0 <= i
            < program.basic_blocks@[b].statements@.len() ==> stmt_ok(
            program,
            input,
            #[trigger] program.basic_blocks@[b].statements@[i],
        )
}

/// Whether every node named by one block fits the single-letter
/// scheme: each of its own slots, and the first slot of each
/// successor, has a valid character code.
pub open spec fn block_codes_ok(program: Program, bb: BasicBlock) -> bool {
    &&& forall|i: int|
        0 <= i < block_slots(bb) ==> valid_char_code(#[trigger] simple_code(program, bb.name@, i))
    &&& forall|j: int|
        0 <= j < bb.successors@.len() ==> valid_char_code(
            simple_code(program, #[trigger] bb.successors@[j]@, 0),
        )
}

/// Whether every node of the program fits the single-letter scheme.
pub open spec fn program_codes_ok(program: Program) -> bool {
    forall|b: int|
        0 <= b < program.basic_blocks@.len() ==> block_codes_ok(
            program,
            #[trigger] program.basic_blocks@[b],
        )
}

pub broadcast proof fn lemma_relabel_subsets_add(
    program: Program,
    simple: bool,
    x: Seq<(Seq<char>, Seq<char>, NodeKey)>,
    y: Seq<(Seq<char>, Seq<char>, NodeKey)>,
)
    ensures
        #[trigger] relabel(program, simple, afacts_subsets(x + y)) == relabel(
            program,
            simple,
            afacts_subsets(x),
        ).add_view(relabel(program, simple, afacts_subsets(y))),
{
    assert(relabel(program, simple, afacts_subsets(x + y)) =~~= relabel(
        program,
        simple,
        afacts_subsets(x),
    ).add_view(relabel(program, simple, afacts_subsets(y))));
}

pub broadcast proof fn lemma_relabel_subset_single(
    program: Program,
    simple: bool,
    o1: Seq<char>,
    o2: Seq<char>,
    k: NodeKey,
)
    ensures
        #[trigger] relabel(program, simple, afacts_subsets(seq![(o1, o2, k)])) == crate::facts::view_subset(
            o1,
            o2,
            label_of(program, simple, k),
        ),
{
    assert(relabel(program, simple, afacts_subsets(seq![(o1, o2, k)])) =~~= crate::facts::view_subset(
        o1,
        o2,
        label_of(program, simple, k),
    ));
}

/// The borrow origins occurring in an expression, in evaluation
/// order: the origin of each `Borrow` or `BorrowMut`, including
/// those inside call arguments.
pub open spec fn expr_borrows(e: Expr) -> Seq<Seq<char>>
    decreases e,
{
    match e {
        Expr::Number { .. } => Seq::empty(),
        Expr::Access { kind, place } => match kind {
            AccessKind::Borrow(o) => seq![o@],
            AccessKind::BorrowMut(o) => seq![o@],
            _ => Seq::empty(),
        },
        Expr::Call { callee, arguments } => exprs_borrows(arguments@, arguments@.len() as int),
    }
}

/// The borrow origins of the first `n` expressions, in order.
pub open spec fn exprs_borrows(es: Seq<Expr>, n: int) -> Seq<Seq<char>>
    decreases es, n,
{
    if n <= 0 || n > es.len() {
        Seq::empty()
    } else {
        exprs_borrows(es, n - 1) + expr_borrows(es[n - 1])
    }
}

/// Whether `k` names a node of the program: its block is declared
/// and its index lies within the block's slots.
pub open spec fn is_node_of(program: Program, k: NodeKey) -> bool {
    exists|b: int|
        0 <= b < program.basic_blocks@.len() && (#[trigger] program.basic_blocks@[b]).name@
            == k.block && 0 <= k.idx < block_slots(program.basic_blocks@[b])
}

/// Whether the program's block names are pairwise distinct.
pub open spec fn unique_block_names(program: Program) -> bool {
    forall|b1: int, b2: int|
        0 <= b1 < b2 < program.basic_blocks@.len() ==> (
        #[trigger] program.basic_blocks@[b1]).name@ != (
        #[trigger] program.basic_blocks@[b2]).name@
}

/// Whether no block name contains the bracket character that the
/// default naming scheme appends.
pub open spec fn plain_block_names(program: Program) -> bool {
    forall|b: int, j: int|
        0 <= b < program.basic_blocks@.len() && 0 <= j
            < program.basic_blocks@[b].name@.len() ==> #[trigger] program.basic_blocks@[b].name@[j]
            != '['
}

/// The number of node slots of the first `n` blocks.
pub open spec fn slots_sum(blocks: Seq<BasicBlock>, n: int) -> int
    decreases n,
{
    if n <= 0 {
        0
    } else {
        slots_sum(blocks, n - 1) + block_slots(blocks[n - 1])
    }
}

} // verus!

