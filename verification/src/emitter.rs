//! The fact emitter: walks a typed program and derives, for each
//! control-flow-graph node, the origin-level relations that encode
//! reads, writes, loan invalidation, origin re-issuance, and subset
//! constraints introduced by assignments.

use vstd::prelude::*;

use crate::ast::{
    names_view, place_view, AccessKind, BasicBlock, Expr, GenericDecl, Name, Parameter, Place,
    Program, Statement, StatementKind, StructDecl, Ty, VariableDecl,
};
use crate::facts::{facts_view, AFacts, Facts, NodeKey, Node, Origin};
use crate::model::{
    block_codes_ok, expr_ok, field_step, field_step_ok, find_struct, find_variable,
    generic_ty_position, label_of, loan_origins, loans_in_blocks, loans_in_stmts, matching_loans,
    origins_upto, place_origins, program_loans, program_ok, resolve_ok, resolved_ty, stmt_expr,
    stmt_loans, ty_after, LoanEntry,
};
use crate::strutil::str_eq;

verus! {

/// A location in the control-flow graph: the block within the
/// program, and the statement within that block.
pub struct Location {
    pub block_idx: usize,
    pub statement_idx: usize,
}

/// The emitter: the program, the original input text the program was
/// parsed from, the loan index built once from the program, and the
/// node naming mode.
pub struct FactEmitter<'a> {
    pub input: &'a str,
    pub program: Program,
    pub loans: Vec<(Place, Origin, Location)>,
    pub simple_node_names: bool,
}

/// The view of the loan index: place, origin, and location of each
/// recorded borrow, in program order.
pub open spec fn loans_view(ls: Seq<(Place, Origin, Location)>) -> Seq<LoanEntry> {
    ls.map_values(
        |t: (Place, Origin, Location)|
            (place_view(t.0), t.1@, (t.2.block_idx as int, t.2.statement_idx as int)),
    )
}

impl<'a> FactEmitter<'a> {
    /// The emitter's invariant: the loan index holds exactly the
    /// loans of the program, in program order.
    pub open spec fn wf(self) -> bool {
        loans_view(self.loans@) == program_loans(self.program)
    }
}

/// The first variable (or field) declaration carrying `name`.
fn find_variable_in<'s>(vars: &'s Vec<VariableDecl>, name: &str) -> (r: Option<&'s VariableDecl>)
    ensures
        match r {
            Some(v) => find_variable(vars@, name@) == Some(*v),
            None => find_variable(vars@, name@) is None,
        },
{
    let n = vars.len();
    let mut i: usize = 0;
    proof {
        assert(vars@.skip(0) =~= vars@);
    }
    while i < n
        invariant
            n == vars@.len(),
            0 <= i <= n,
            find_variable(vars@, name@) == find_variable(vars@.skip(i as int), name@),
        decreases n - i,
    {
        if str_eq(vars[i].name.as_str(), name) {
            proof {
                assert(vars@.skip(i as int)[0] == vars@[i as int]);
            }
            return Some(&vars[i]);
        }
        proof {
            assert(vars@.skip(i as int).skip(1) =~= vars@.skip(i + 1));
        }
        i = i + 1;
    }
    proof {
        assert(vars@.skip(n as int).len() == 0);
    }
    None
}

/// The first struct declaration carrying `name`.
fn find_struct_in<'s>(decls: &'s Vec<StructDecl>, name: &str) -> (r: Option<&'s StructDecl>)
    ensures
        match r {
            Some(d) => find_struct(decls@, name@) == Some(*d),
            None => find_struct(decls@, name@) is None,
        },
{
    let n = decls.len();
    let mut i: usize = 0;
    proof {
        assert(decls@.skip(0) =~= decls@);
    }
    while i < n
        invariant
            n == decls@.len(),
            0 <= i <= n,
            find_struct(decls@, name@) == find_struct(decls@.skip(i as int), name@),
        decreases n - i,
    {
        if str_eq(decls[i].name.as_str(), name) {
            proof {
                assert(decls@.skip(i as int)[0] == decls@[i as int]);
            }
            return Some(&decls[i]);
        }
        proof {
            assert(decls@.skip(i as int).skip(1) =~= decls@.skip(i + 1));
        }
        i = i + 1;
    }
    proof {
        assert(decls@.skip(n as int).len() == 0);
    }
    None
}

/// The position of the first generic type parameter carrying `name`.
fn generic_ty_position_in(gens: &Vec<GenericDecl>, name: &str) -> (r: Option<usize>)
    ensures
        match r {
            Some(i) => generic_ty_position(gens@, name@) == Some(i as int),
            None => generic_ty_position(gens@, name@) is None,
        },
{
    let n = gens.len();
    let mut i: usize = 0;
    proof {
        assert(gens@.skip(0) =~= gens@);
    }
    while i < n
        invariant
            n == gens@.len(),
            0 <= i <= n,
            generic_ty_position(gens@, name@) == match generic_ty_position(
                gens@.skip(i as int),
                name@,
            ) {
                Some(p) => Some(p + i),
                None => None,
            },
        decreases n - i,
    {
        let found = match &gens[i] {
            GenericDecl::Ty(pn) => str_eq(pn.as_str(), name),
            GenericDecl::Origin(_) => false,
        };
        proof {
            assert(gens@.skip(i as int)[0] == gens@[i as int]);
            assert(gens@.skip(i as int).skip(1) =~= gens@.skip(i + 1));
        }
        if found {
            return Some(i);
        }
        i = i + 1;
    }
    proof {
        assert(gens@.skip(n as int).len() == 0);
    }
    None
}

impl<'a> FactEmitter<'a> {
    /// One step of the place walk: the type of `field` inside struct
    /// type `t`, with a generic field type substituted by the
    /// matching type argument.
    fn field_step_of<'s>(&'s self, t: &'s Ty, field: &Name) -> (r: &'s Ty)
        requires
            field_step_ok(self.program, *t, field@),
        ensures
            *r == field_step(self.program, *t, field@),
    {
        match t {
            Ty::Struct { name, parameters } => {
                let decl = match find_struct_in(&self.program.struct_decls, name.as_str()) {
                    Some(d) => d,
                    None => {
                        proof {
                            assert(false);
                        }
                        &self.program.struct_decls[0]
                    },
                };
                let fd = match find_variable_in(&decl.field_decls, field.as_str()) {
                    Some(f) => f,
                    None => {
                        proof {
                            assert(false);
                        }
                        &decl.field_decls[0]
                    },
                };
                match &fd.ty {
                    Ty::Struct { name: field_ty_name, .. } => {
                        match generic_ty_position_in(&decl.generic_decls, field_ty_name.as_str()) {
                            Some(idx) => match &parameters[idx] {
                                Parameter::Ty(subst) => subst,
                                Parameter::Origin(_) => {
                                    proof {
                                        assert(false);
                                    }
                                    t
                                },
                            },
                            None => &fd.ty,
                        }
                    },
                    _ => &fd.ty,
                }
            },
            _ => {
                proof {
                    assert(false);
                }
                t
            },
        }
    }

    /// Walks the types visited by `place`: the base variable's type,
    /// then the type after each field step, in order. The last
    /// element is the type of the place itself.
    pub fn walk_place_tys<'s>(&'s self, place: &Place) -> (r: Vec<&'s Ty>)
        requires
            resolve_ok(self.program, *place),
        ensures
            r@.len() == place.fields@.len() + 1,
            forall|n: int|
                0 <= n < r@.len() ==> *(#[trigger] r@[n]) == ty_after(self.program, *place, n),
    {
        let base = place.base_str();
        let v = match find_variable_in(&self.program.variables, base) {
            Some(v) => v,
            None => {
                proof {
                    assert(false);
                }
                &self.program.variables[0]
            },
        };
        let mut cur: &Ty = &v.ty;
        let mut r: Vec<&Ty> = Vec::new();
        let n = place.fields.len();
        let mut j: usize = 0;
        while j < n
            invariant
                n == place.fields@.len(),
                0 <= j <= n,
                resolve_ok(self.program, *place),
                *cur == ty_after(self.program, *place, j as int),
                r@.len() == j,
                forall|m: int|
                    0 <= m < j ==> *(#[trigger] r@[m]) == ty_after(self.program, *place, m),
            decreases n - j,
        {
            r.push(cur);
            cur = self.field_step_of(cur, &place.fields[j]);
            j = j + 1;
        }
        r.push(cur);
        r
    }

    /// The type of the value named by `place`.
    pub fn ty_of_place<'s>(&'s self, place: &Place) -> (r: &'s Ty)
        requires
            resolve_ok(self.program, *place),
        ensures
            *r == resolved_ty(self.program, *place),
    {
        let tys = self.walk_place_tys(place);
        tys[tys.len() - 1]
    }

    /// The origins of `place`: every origin in every type visited
    /// along the walk, in traversal order.
    pub fn origins_of_place(&self, place: &Place) -> (r: Vec<Name>)
        requires
            resolve_ok(self.program, *place),
        ensures
            names_view(r@) == place_origins(self.program, *place),
    {
        let tys = self.walk_place_tys(place);
        let mut origins: Vec<Name> = Vec::new();
        let n = tys.len();
        let mut j: usize = 0;
        while j < n
            invariant
                n == tys@.len(),
                n == place.fields@.len() + 1,
                0 <= j <= n,
                forall|m: int|
                    0 <= m < n ==> *(#[trigger] tys@[m]) == ty_after(self.program, *place, m),
                j > 0 ==> names_view(origins@) == origins_upto(self.program, *place, j - 1),
                j == 0 ==> names_view(origins@) == Seq::<Seq<char>>::empty(),
            decreases n - j,
        {
            tys[j].collect_origins_into(&mut origins);
            proof {
                if j == 0 {
                    assert(names_view(origins@) =~= origins_upto(self.program, *place, 0));
                }
            }
            j = j + 1;
        }
        proof {
            assert(names_view(origins@) == place_origins(self.program, *place));
        }
        origins
    }
}

/// Every prefix of slot sums is nonnegative.
pub proof fn lemma_linear_start_nonneg(blocks: Seq<BasicBlock>, name: Seq<char>)
    ensures
        crate::model::linear_start(blocks, name) >= 0,
    decreases blocks.len(),
{
    if blocks.len() > 0 && blocks[0].name@ != name {
        lemma_linear_start_nonneg(blocks.skip(1), name);
    }
}

impl<'a> FactEmitter<'a> {
    /// Builds the emitter: collects the loans from every borrow of a
    /// complete place in the program, in program order.
    pub fn new(program: Program, input: &'a str, simple_node_names: bool) -> (r: FactEmitter<'a>)
        ensures
            r.program == program,
            r.input@ == input@,
            r.simple_node_names == simple_node_names,
            r.wf(),
    {
        let mut loans: Vec<(Place, Origin, Location)> = Vec::new();
        let nb = program.basic_blocks.len();
        let mut b: usize = 0;
        proof {
            assert(loans_view(loans@) =~= loans_in_blocks(program.basic_blocks@, 0));
        }
        while b < nb
            invariant
                nb == program.basic_blocks@.len(),
                0 <= b <= nb,
                loans_view(loans@) == loans_in_blocks(program.basic_blocks@, b as int),
            decreases nb - b,
        {
            let bb = &program.basic_blocks[b];
            let ns = bb.statements.len();
            let mut s: usize = 0;
            proof {
                assert(loans_view(loans@) =~= loans_in_blocks(program.basic_blocks@, b as int)
                    + loans_in_stmts(bb.statements@, b as int, 0));
            }
            while s < ns
                invariant
                    nb == program.basic_blocks@.len(),
                    0 <= b < nb,
                    bb == &program.basic_blocks@[b as int],
                    ns == bb.statements@.len(),
                    0 <= s <= ns,
                    loans_view(loans@) == loans_in_blocks(program.basic_blocks@, b as int)
                        + loans_in_stmts(bb.statements@, b as int, s as int),
                decreases ns - s,
            {
                let stmt = &bb.statements[s];
                let expr = match &stmt.kind {
                    StatementKind::Assign(_, e) => e,
                    StatementKind::Expr(e) => e,
                };
                match expr {
                    Expr::Access { kind, place } => {
                        let origin = match kind {
                            AccessKind::Borrow(o) => Some(o),
                            AccessKind::BorrowMut(o) => Some(o),
                            _ => None,
                        };
                        match origin {
                            Some(o) => {
                                if place.fields.len() == 0 {
                                    let ghost before = loans@;
                                    let entry = (
                                        place.clone_place(),
                                        o.clone(),
                                        Location { block_idx: b, statement_idx: s },
                                    );
                                    loans.push(entry);
                                    proof {
                                        assert(loans_view(loans@) =~~= loans_view(before).push(
                                            (place_view(*place), o@, (b as int, s as int)),
                                        ));
                                    }
                                }
                            },
                            None => {},
                        }
                    },
                    _ => {},
                }
                proof {
                    assert(loans_view(loans@) =~~= loans_in_blocks(program.basic_blocks@, b as int)
                        + loans_in_stmts(bb.statements@, b as int, s + 1));
                }
                s = s + 1;
            }
            proof {
                assert(loans_view(loans@) =~= loans_in_blocks(program.basic_blocks@, b + 1));
            }
            b = b + 1;
        }
        FactEmitter { input, program, loans, simple_node_names }
    }

    /// The label of the node for statement `statement_idx` of the
    /// block named `block`, under the emitter's naming mode.
    pub fn node_at(&self, block: &str, statement_idx: usize) -> (r: Node)
        requires
            self.simple_node_names ==> crate::strutil::valid_char_code(
                crate::model::simple_code(self.program, block@, statement_idx as int),
            ),
        ensures
            r@ == crate::model::node_label(
                self.program,
                self.simple_node_names,
                block@,
                statement_idx as int,
            ),
    {
        if self.simple_node_names {
            let blocks = &self.program.basic_blocks;
            let nb = blocks.len();
            let mut acc: usize = 0;
            let mut b: usize = 0;
            let mut found = false;
            proof {
                assert(blocks@.skip(0) =~= blocks@);
                lemma_linear_start_nonneg(blocks@, block@);
            }
            while b < nb && !found
                invariant
                    nb == blocks@.len(),
                    0 <= b <= nb,
                    crate::strutil::valid_char_code(
                        97 + crate::model::linear_start(blocks@, block@) + statement_idx as int,
                    ),
                    !found ==> crate::model::linear_start(blocks@, block@) == acc
                        + crate::model::linear_start(blocks@.skip(b as int), block@),
                    found ==> crate::model::linear_start(blocks@, block@) == acc,
                    crate::model::linear_start(blocks@.skip(b as int), block@) >= 0,
                decreases nb - b, (if found { 0int } else { 1int }),
            {
                let bb = &blocks[b];
                if str_eq(bb.name.as_str(), block) {
                    found = true;
                } else {
                    let len = bb.statements.len();
                    let slots: usize = if len == 0 {
                        1
                    } else {
                        len
                    };
                    proof {
                        assert(blocks@.skip(b as int)[0] == blocks@[b as int]);
                        assert(blocks@.skip(b as int).skip(1) =~= blocks@.skip(b + 1));
                        lemma_linear_start_nonneg(blocks@.skip(b + 1), block@);
                    }
                    acc = acc + slots;
                    b = b + 1;
                }
            }
            proof {
                if !found {
                    assert(blocks@.skip(nb as int).len() == 0);
                }
                assert(crate::model::linear_start(blocks@, block@) == acc);
            }
            let code: usize = 97 + acc + statement_idx;
            let c = match crate::strutil::char_from_u32(code as u32) {
                Some(c) => c,
                None => {
                    proof {
                        assert(false);
                    }
                    'a'
                },
            };
            let mut r = String::new();
            crate::strutil::push_char(&mut r, c);
            proof {
                assert(r@ =~= crate::model::node_label(
                    self.program,
                    self.simple_node_names,
                    block@,
                    statement_idx as int,
                ));
            }
            r
        } else {
            let mut r = block.to_owned();
            crate::strutil::push_char(&mut r, '[');
            crate::strutil::push_dec(&mut r, statement_idx);
            crate::strutil::push_char(&mut r, ']');
            proof {
                assert(r@ =~= crate::model::node_label(
                    self.program,
                    self.simple_node_names,
                    block@,
                    statement_idx as int,
                ));
            }
            r
        }
    }
}

impl<'a> FactEmitter<'a> {
    /// Appends one `clear_origin` fact per origin in `origins`, in
    /// order, at `node`.
    #[verifier::loop_isolation(false)]
    fn push_clear_origins(&self, facts: &mut Facts, origins: &Vec<Name>, node: &Node, key: Ghost<NodeKey>)
        requires
            node@ == label_of(self.program, self.simple_node_names, key@),
        ensures
            facts_view(*final(facts)) == facts_view(*old(facts)).add_view(
                crate::model::relabel(
                    self.program,
                    self.simple_node_names,
                    crate::model::afacts_clear(names_view(origins@), key@),
                ),
            ),
    {
        broadcast use crate::facts::lemma_add_view_assoc;
        broadcast use crate::facts::lemma_add_view_empty;

        let ghost prog = self.program;
        let ghost simple = self.simple_node_names;
        let ghost k = key@;
        let ghost base = facts_view(*facts);
        let ghost os = names_view(origins@);
        let n = origins.len();
        let mut j: usize = 0;
        proof {
            assert(crate::model::relabel(prog, simple, crate::model::afacts_clear(os.take(0), k))
                =~~= crate::facts::empty_view());
        }
        while j < n
            invariant
                0 <= j <= n,
                facts_view(*facts) == base.add_view(
                    crate::model::relabel(
                        prog,
                        simple,
                        crate::model::afacts_clear(os.take(j as int), k),
                    ),
                ),
            decreases n - j,
        {
            crate::facts::push_clear(facts, origins[j].clone(), node.clone());
            proof {
                assert(os.take(j + 1) =~= os.take(j as int).push(origins@[j as int]@));
                assert(crate::model::relabel(
                    prog,
                    simple,
                    crate::model::afacts_clear(os.take(j + 1), k),
                ) =~~= crate::model::relabel(
                    prog,
                    simple,
                    crate::model::afacts_clear(os.take(j as int), k),
                ).add_view(crate::facts::view_clear(origins@[j as int]@, node@)));
            }
            j = j + 1;
        }
        proof {
            assert(os.take(n as int) =~= os);
        }
    }

    /// Appends one `access_origin` fact per origin in `origins`, in
    /// order, at `node`.
    #[verifier::loop_isolation(false)]
    fn push_access_origins(&self, facts: &mut Facts, origins: &Vec<Name>, node: &Node, key: Ghost<NodeKey>)
        requires
            node@ == label_of(self.program, self.simple_node_names, key@),
        ensures
            facts_view(*final(facts)) == facts_view(*old(facts)).add_view(
                crate::model::relabel(
                    self.program,
                    self.simple_node_names,
                    crate::model::afacts_access(names_view(origins@), key@),
                ),
            ),
    {
        broadcast use crate::facts::lemma_add_view_assoc;
        broadcast use crate::facts::lemma_add_view_empty;

        let ghost prog = self.program;
        let ghost simple = self.simple_node_names;
        let ghost k = key@;
        let ghost base = facts_view(*facts);
        let ghost os = names_view(origins@);
        let n = origins.len();
        let mut j: usize = 0;
        proof {
            assert(crate::model::relabel(prog, simple, crate::model::afacts_access(os.take(0), k))
                =~~= crate::facts::empty_view());
        }
        while j < n
            invariant
                0 <= j <= n,
                facts_view(*facts) == base.add_view(
                    crate::model::relabel(
                        prog,
                        simple,
                        crate::model::afacts_access(os.take(j as int), k),
                    ),
                ),
            decreases n - j,
        {
            crate::facts::push_access(facts, origins[j].clone(), node.clone());
            proof {
                assert(os.take(j + 1) =~= os.take(j as int).push(origins@[j as int]@));
                assert(crate::model::relabel(
                    prog,
                    simple,
                    crate::model::afacts_access(os.take(j + 1), k),
                ) =~~= crate::model::relabel(
                    prog,
                    simple,
                    crate::model::afacts_access(os.take(j as int), k),
                ).add_view(crate::facts::view_access(origins@[j as int]@, node@)));
            }
            j = j + 1;
        }
        proof {
            assert(os.take(n as int) =~= os);
        }
    }

    /// Appends one `invalidate_origin` fact per loan of `place`
    /// recorded in the index, in program order, at `node`.
    #[verifier::loop_isolation(false)]
    fn push_invalidations(&self, facts: &mut Facts, place: &Place, node: &Node, key: Ghost<NodeKey>)
        requires
            self.wf(),
            node@ == label_of(self.program, self.simple_node_names, key@),
        ensures
            facts_view(*final(facts)) == facts_view(*old(facts)).add_view(
                crate::model::relabel(
                    self.program,
                    self.simple_node_names,
                    crate::model::afacts_invalidate(
                        loan_origins(self.program, place_view(*place)),
                        key@,
                    ),
                ),
            ),
    {
        broadcast use crate::facts::lemma_add_view_assoc;
        broadcast use crate::facts::lemma_add_view_empty;

        let ghost prog = self.program;
        let ghost simple = self.simple_node_names;
        let ghost k = key@;
        let ghost base = facts_view(*facts);
        let ghost pv = place_view(*place);
        let ghost entries = program_loans(prog);
        let n = self.loans.len();
        let mut j: usize = 0;
        proof {
            assert(crate::model::relabel(
                prog,
                simple,
                crate::model::afacts_invalidate(matching_loans(entries, pv, 0), k),
            ) =~~= crate::facts::empty_view());
        }
        while j < n
            invariant
                0 <= j <= n,
                facts_view(*facts) == base.add_view(
                    crate::model::relabel(
                        prog,
                        simple,
                        crate::model::afacts_invalidate(matching_loans(entries, pv, j as int), k),
                    ),
                ),
            decreases n - j,
        {
            let entry = &self.loans[j];
            proof {
                assert(entries[j as int] == (
                    place_view(entry.0),
                    entry.1@,
                    (entry.2.block_idx as int, entry.2.statement_idx as int),
                ));
            }
            if entry.0.place_eq(place) {
                crate::facts::push_invalidate(facts, entry.1.clone(), node.clone());
                proof {
                    assert(matching_loans(entries, pv, j + 1) =~= matching_loans(
                        entries,
                        pv,
                        j as int,
                    ).push(entry.1@));
                    assert(crate::model::relabel(
                        prog,
                        simple,
                        crate::model::afacts_invalidate(matching_loans(entries, pv, j + 1), k),
                    ) =~~= crate::model::relabel(
                        prog,
                        simple,
                        crate::model::afacts_invalidate(matching_loans(entries, pv, j as int), k),
                    ).add_view(crate::facts::view_invalidate(entry.1@, node@)));
                }
            } else {
                proof {
                    assert(matching_loans(entries, pv, j + 1) =~= matching_loans(
                        entries,
                        pv,
                        j as int,
                    ));
                }
            }
            j = j + 1;
        }
        proof {
            assert(loan_origins(prog, pv) == matching_loans(entries, pv, entries.len() as int));
            assert(entries.len() == n);
        }
    }

    /// Emits the facts of evaluating `expr` at `node`: borrows clear
    /// their origin; a mutable borrow is a write, accessing the
    /// borrowed place's origins and invalidating its loans; copies
    /// and moves are reads; calls evaluate their arguments in order.
    #[verifier::loop_isolation(false)]
    pub fn emit_expr_facts(&self, node: &Node, expr: &Expr, facts: &mut Facts, key: Ghost<NodeKey>)
        requires
            self.wf(),
            expr_ok(self.program, *expr),
            node@ == label_of(self.program, self.simple_node_names, key@),
        ensures
            facts_view(*final(facts)) == facts_view(*old(facts)).add_view(
                crate::model::relabel(
                    self.program,
                    self.simple_node_names,
                    crate::model::expr_afacts(self.program, *expr, key@),
                ),
            ),
        decreases *expr,
    {
        broadcast use crate::facts::lemma_add_view_assoc;
        broadcast use crate::facts::lemma_add_view_empty;
        broadcast use crate::model::lemma_relabel_add;
        broadcast use crate::model::lemma_empty_view;
        broadcast use crate::facts::lemma_afacts_add_assoc;
        broadcast use crate::facts::lemma_afacts_add_empty;

        let ghost prog = self.program;
        let ghost simple = self.simple_node_names;
        let ghost k = key@;
        match expr {
            Expr::Number { .. } => {
                proof {
                    assert(facts_view(*facts) =~~= facts_view(*facts).add_view(
                        crate::model::relabel(
                            prog,
                            simple,
                            crate::model::expr_afacts(prog, *expr, k),
                        ),
                    ));
                }
            },
            Expr::Access { kind, place } => {
                match kind {
                    AccessKind::Borrow(origin) => {
                        crate::facts::push_clear(facts, origin.clone(), node.clone());
                        proof {
                            assert(crate::model::relabel(
                                prog,
                                simple,
                                crate::model::expr_afacts(prog, *expr, k),
                            ) =~~= crate::facts::view_clear(origin@, node@));
                        }
                    },
                    AccessKind::BorrowMut(origin) => {
                        crate::facts::push_clear(facts, origin.clone(), node.clone());
                        proof {
                            assert(crate::model::relabel(
                                prog,
                                simple,
                                crate::model::afacts_clear(seq![origin@], k),
                            ) =~~= crate::facts::view_clear(origin@, node@));
                        }
                        let origins = self.origins_of_place(place);
                        self.push_access_origins(facts, &origins, node, key);
                        self.push_invalidations(facts, place, node, key);
                    },
                    AccessKind::Copy => {
                        let origins = self.origins_of_place(place);
                        self.push_access_origins(facts, &origins, node, key);
                    },
                    AccessKind::Move => {
                        let origins = self.origins_of_place(place);
                        self.push_access_origins(facts, &origins, node, key);
                    },
                }
            },
            Expr::Call { callee, arguments } => {
                let ghost args = arguments@;
                let n = arguments.len();
                let ghost base = facts_view(*facts);
                let mut j: usize = 0;
                while j < n
                    invariant
                        0 <= j <= n,
                        facts_view(*facts) == base.add_view(
                            crate::model::relabel(
                                prog,
                                simple,
                                crate::model::exprs_afacts(prog, args, j as int, k),
                            ),
                        ),
                    decreases n - j,
                {
                    proof {
                        let cv = Expr::Call { callee: *callee, arguments: *arguments };
                        assert(decreases_to!(cv => cv->Call_arguments));
                        assert(decreases_to!(*arguments => arguments@));
                        let aj = arguments@[j as int];
                        assert(decreases_to!(arguments@ => aj));
                        assert(crate::model::exprs_ok(prog, args, n as int));
                        lemma_exprs_ok_prefix(prog, args, j + 1, n as int);
                    }
                    self.emit_expr_facts(node, &arguments[j], facts, key);
                    j = j + 1;
                }
            },
        }
    }
}

/// Well-formedness of a prefix follows from that of a longer prefix.
pub proof fn lemma_exprs_ok_prefix(program: Program, es: Seq<Expr>, m: int, n: int)
    requires
        0 <= m <= n <= es.len(),
        crate::model::exprs_ok(program, es, n),
    ensures
        crate::model::exprs_ok(program, es, m),
    decreases n - m,
{
    if m < n {
        lemma_exprs_ok_prefix(program, es, m + 1, n);
    }
}

impl<'a> FactEmitter<'a> {
    /// Emits subset relationships between the two types' parameters
    /// pair-wise, according to the variance rules, recursively.
    #[verifier::loop_isolation(false)]
    pub fn relate_tys(
        &self,
        node: &Node,
        lhs_ty: &Ty,
        rhs_ty: &Ty,
        variance: crate::model::Variance,
        facts: &mut Facts,
        key: Ghost<NodeKey>,
    )
        requires
            crate::model::relate_ok(*lhs_ty, *rhs_ty),
            node@ == label_of(self.program, self.simple_node_names, key@),
        ensures
            facts_view(*final(facts)) == facts_view(*old(facts)).add_view(
                crate::model::relabel(
                    self.program,
                    self.simple_node_names,
                    crate::model::afacts_subsets(
                        crate::model::relate_afacts(*lhs_ty, *rhs_ty, variance, key@),
                    ),
                ),
            ),
        decreases *lhs_ty,
    {
        broadcast use crate::facts::lemma_add_view_assoc;
        broadcast use crate::facts::lemma_add_view_empty;
        broadcast use crate::model::lemma_relabel_subsets_add;
        broadcast use crate::model::lemma_relabel_subset_single;

        let ghost prog = self.program;
        let ghost simple = self.simple_node_names;
        let ghost k = key@;
        match (lhs_ty, rhs_ty) {
            (
                Ty::Struct { name: lname, parameters: ls },
                Ty::Struct { parameters: rs, .. },
            ) => {
                let ghost lsv = ls@;
                let ghost rsv = rs@;
                let n = if ls.len() <= rs.len() {
                    ls.len()
                } else {
                    rs.len()
                };
                proof {
                    assert(crate::model::relate_afacts(*lhs_ty, *rhs_ty, variance, k)
                        == crate::model::params_relate(lsv, rsv, variance, k, n as int));
                }
                let ghost base = facts_view(*facts);
                let mut j: usize = 0;
                proof {
                    assert(crate::model::relabel(
                        prog,
                        simple,
                        crate::model::afacts_subsets(
                            crate::model::params_relate(lsv, rsv, variance, k, 0),
                        ),
                    ) =~~= crate::facts::empty_view());
                }
                while j < n
                    invariant
                        0 <= j <= n,
                        facts_view(*facts) == base.add_view(
                            crate::model::relabel(
                                prog,
                                simple,
                                crate::model::afacts_subsets(
                                    crate::model::params_relate(lsv, rsv, variance, k, j as int),
                                ),
                            ),
                        ),
                    decreases n - j,
                {
                    proof {
                        let sv = Ty::Struct { name: *lname, parameters: *ls };
                        assert(decreases_to!(sv => sv->Struct_parameters));
                        assert(decreases_to!(*ls => ls@));
                        let pj = ls@[j as int];
                        assert(decreases_to!(lsv => pj));
                        assert(crate::model::params_relate_ok(lsv, rsv, n as int));
                        lemma_params_relate_ok_prefix(lsv, rsv, j + 1, n as int);
                    }
                    let ghost before = facts_view(*facts);
                    match (&ls[j], &rs[j]) {
                        (
                            Parameter::Ty(Ty::Ref { origin: target, ty: lt }),
                            Parameter::Ty(Ty::Ref { origin: source, ty: rt }),
                        ) => {
                            proof {
                                assert(lsv[j as int] == Parameter::Ty(
                                    Ty::Ref { origin: *target, ty: *lt },
                                ));
                                assert(rsv[j as int] == Parameter::Ty(
                                    Ty::Ref { origin: *source, ty: *rt },
                                ));
                                assert(crate::model::pair_relate_ok(
                                    lsv[j as int],
                                    rsv[j as int],
                                ));
                                let pj = lsv[j as int];
                                assert(decreases_to!(pj => pj->Ty_0));
                                let tj = pj->Ty_0;
                                assert(decreases_to!(tj => *tj->Ref_ty));
                            }
                            self.emit_variance_subsets(node, source, target, variance, facts, key);
                            self.relate_tys(node, lt, rt, variance, facts, key);
                        },
                        (
                            Parameter::Ty(Ty::RefMut { origin: target, ty: lt }),
                            Parameter::Ty(Ty::RefMut { origin: source, ty: rt }),
                        ) => {
                            proof {
                                assert(lsv[j as int] == Parameter::Ty(
                                    Ty::RefMut { origin: *target, ty: *lt },
                                ));
                                assert(rsv[j as int] == Parameter::Ty(
                                    Ty::RefMut { origin: *source, ty: *rt },
                                ));
                                assert(crate::model::pair_relate_ok(
                                    lsv[j as int],
                                    rsv[j as int],
                                ));
                                let pj = lsv[j as int];
                                assert(decreases_to!(pj => pj->Ty_0));
                                let tj = pj->Ty_0;
                                assert(decreases_to!(tj => *tj->RefMut_ty));
                            }
                            self.emit_variance_subsets(node, source, target, variance, facts, key);
                            self.relate_tys(
                                node,
                                lt,
                                rt,
                                crate::model::Variance::Invariant,
                                facts,
                                key,
                            );
                        },
                        (Parameter::Ty(lt), Parameter::Ty(rt)) => {
                            proof {
                                assert(lsv[j as int] == Parameter::Ty(*lt));
                                assert(rsv[j as int] == Parameter::Ty(*rt));
                                assert(crate::model::pair_relate_ok(
                                    lsv[j as int],
                                    rsv[j as int],
                                ));
                                assert(crate::model::relate_ok(*lt, *rt));
                                let pj = lsv[j as int];
                                assert(decreases_to!(pj => pj->Ty_0));
                            }
                            self.relate_tys(node, lt, rt, variance, facts, key);
                        },
                        _ => {
                            proof {
                                assert(crate::model::pair_relate_ok(
                                    lsv[j as int],
                                    rsv[j as int],
                                ));
                                assert(false);
                            }
                        },
                    }
                    proof {
                        assert(crate::model::params_relate(lsv, rsv, variance, k, j + 1)
                            == crate::model::params_relate(lsv, rsv, variance, k, j as int)
                            + crate::model::pair_relate(lsv[j as int], rsv[j as int], variance, k));
                    }
                    j = j + 1;
                }
            },
            _ => {
                proof {
                    assert(facts_view(*facts) =~~= facts_view(*facts).add_view(
                        crate::model::relabel(
                            prog,
                            simple,
                            crate::model::afacts_subsets(
                                crate::model::relate_afacts(*lhs_ty, *rhs_ty, variance, k),
                            ),
                        ),
                    ));
                }
            },
        }
    }

    /// Emits the subsets one matched reference pair introduces under
    /// the given variance.
    fn emit_variance_subsets(
        &self,
        node: &Node,
        source: &Name,
        target: &Name,
        variance: crate::model::Variance,
        facts: &mut Facts,
        key: Ghost<NodeKey>,
    )
        requires
            node@ == label_of(self.program, self.simple_node_names, key@),
        ensures
            facts_view(*final(facts)) == facts_view(*old(facts)).add_view(
                crate::model::relabel(
                    self.program,
                    self.simple_node_names,
                    crate::model::afacts_subsets(
                        crate::model::variance_subsets(source@, target@, variance, key@),
                    ),
                ),
            ),
    {
        broadcast use crate::facts::lemma_add_view_assoc;
        broadcast use crate::facts::lemma_add_view_empty;
        broadcast use crate::model::lemma_relabel_subsets_add;
        broadcast use crate::model::lemma_relabel_subset_single;

        let ghost prog = self.program;
        let ghost simple = self.simple_node_names;
        let ghost k = key@;
        if matches!(variance, crate::model::Variance::Covariant | crate::model::Variance::Invariant) {
            crate::facts::push_subset(facts, source.clone(), target.clone(), node.clone());
        }
        if matches!(
            variance,
            crate::model::Variance::Contravariant | crate::model::Variance::Invariant,
        ) {
            crate::facts::push_subset(facts, target.clone(), source.clone(), node.clone());
        }
        proof {
            assert(facts_view(*facts) =~~= facts_view(*old(facts)).add_view(
                crate::model::relabel(
                    prog,
                    simple,
                    crate::model::afacts_subsets(
                        crate::model::variance_subsets(source@, target@, variance, k),
                    ),
                ),
            ));
        }
    }

    /// Checks, as proved assertions, that no origins were left
    /// unprocessed by subset introduction: the left-hand type carries
    /// none, the right-hand side is no borrow, and a copied or moved
    /// right-hand type carries none.
    pub fn assert_no_origins_are_present(&self, lhs_ty: &Ty, rhs_expr: &Expr)
        requires
            crate::model::no_unprocessed_origins(self.program, *lhs_ty, *rhs_expr),
    {
        let lhs_has = lhs_ty.has_origins();
        assert(!lhs_has);
        match rhs_expr {
            Expr::Access { kind, place } => {
                let is_borrow = matches!(kind, AccessKind::Borrow(_) | AccessKind::BorrowMut(_));
                assert(!is_borrow);
                match kind {
                    AccessKind::Copy | AccessKind::Move => {
                        let rhs_ty = self.ty_of_place(place);
                        let rhs_has = rhs_ty.has_origins();
                        assert(!rhs_has);
                    },
                    _ => {},
                }
            },
            _ => {},
        }
    }

    /// Introduces the subsets an assignment of `rhs_expr` into a
    /// place of type `lhs_ty` requires: data flows from the
    /// right-hand side into the left-hand side.
    pub fn emit_subset_facts(
        &self,
        node: &Node,
        lhs_ty: &Ty,
        rhs_expr: &Expr,
        facts: &mut Facts,
        key: Ghost<NodeKey>,
    )
        requires
            self.wf(),
            crate::model::subset_ok(self.program, *lhs_ty, *rhs_expr),
            node@ == label_of(self.program, self.simple_node_names, key@),
        ensures
            facts_view(*final(facts)) == facts_view(*old(facts)).add_view(
                crate::model::relabel(
                    self.program,
                    self.simple_node_names,
                    crate::model::afacts_subsets(
                        crate::model::subset_afacts(self.program, *lhs_ty, *rhs_expr, key@),
                    ),
                ),
            ),
    {
        broadcast use crate::facts::lemma_add_view_assoc;
        broadcast use crate::facts::lemma_add_view_empty;
        broadcast use crate::model::lemma_relabel_subsets_add;
        broadcast use crate::model::lemma_relabel_subset_single;

        let ghost prog = self.program;
        let ghost simple = self.simple_node_names;
        let ghost k = key@;
        match (lhs_ty, rhs_expr) {
            (
                Ty::Ref { origin: target, ty: lhs_inner },
                Expr::Access { kind: AccessKind::Borrow(source), place },
            ) => {
                crate::facts::push_subset(facts, source.clone(), target.clone(), node.clone());
                let rhs_ty = self.ty_of_place(place);
                self.relate_tys(
                    node,
                    lhs_inner,
                    rhs_ty,
                    crate::model::Variance::Covariant,
                    facts,
                    key,
                );
            },
            (
                Ty::Ref { origin: target, ty: lhs_inner },
                Expr::Access { kind: AccessKind::Copy, place },
            )
            | (
                Ty::Ref { origin: target, ty: lhs_inner },
                Expr::Access { kind: AccessKind::Move, place },
            ) => {
                let rhs_ty = self.ty_of_place(place);
                match rhs_ty {
                    Ty::Ref { origin: source, ty: rhs_inner } => {
                        crate::facts::push_subset(
                            facts,
                            source.clone(),
                            target.clone(),
                            node.clone(),
                        );
                        self.relate_tys(
                            node,
                            lhs_inner,
                            rhs_inner,
                            crate::model::Variance::Covariant,
                            facts,
                            key,
                        );
                    },
                    _ => {
                        proof {
                            assert(false);
                        }
                    },
                }
            },
            (
                Ty::RefMut { origin: target, ty: lhs_inner },
                Expr::Access { kind: AccessKind::BorrowMut(source), place },
            ) => {
                crate::facts::push_subset(facts, source.clone(), target.clone(), node.clone());
                let rhs_ty = self.ty_of_place(place);
                self.relate_tys(
                    node,
                    lhs_inner,
                    rhs_ty,
                    crate::model::Variance::Invariant,
                    facts,
                    key,
                );
            },
            (
                Ty::RefMut { origin: target, ty: lhs_inner },
                Expr::Access { kind: AccessKind::Copy, place },
            )
            | (
                Ty::RefMut { origin: target, ty: lhs_inner },
                Expr::Access { kind: AccessKind::Move, place },
            ) => {
                let rhs_ty = self.ty_of_place(place);
                match rhs_ty {
                    Ty::RefMut { origin: source, ty: rhs_inner } => {
                        crate::facts::push_subset(
                            facts,
                            source.clone(),
                            target.clone(),
                            node.clone(),
                        );
                        self.relate_tys(
                            node,
                            lhs_inner,
                            rhs_inner,
                            crate::model::Variance::Invariant,
                            facts,
                            key,
                        );
                    },
                    _ => {
                        proof {
                            assert(false);
                        }
                    },
                }
            },
            (Ty::Struct { .. }, Expr::Access { kind: AccessKind::Copy, place })
            | (Ty::Struct { .. }, Expr::Access { kind: AccessKind::Move, place }) => {
                let rhs_ty = self.ty_of_place(place);
                self.relate_tys(
                    node,
                    lhs_ty,
                    rhs_ty,
                    crate::model::Variance::Covariant,
                    facts,
                    key,
                );
            },
            (_, Expr::Call { .. }) => {
                proof {
                    assert(facts_view(*facts) =~~= facts_view(*facts).add_view(
                        crate::model::relabel(
                            prog,
                            simple,
                            crate::model::afacts_subsets(
                                crate::model::subset_afacts(prog, *lhs_ty, *rhs_expr, k),
                            ),
                        ),
                    ));
                }
            },
            _ => {
                self.assert_no_origins_are_present(lhs_ty, rhs_expr);
                proof {
                    assert(facts_view(*facts) =~~= facts_view(*facts).add_view(
                        crate::model::relabel(
                            prog,
                            simple,
                            crate::model::afacts_subsets(
                                crate::model::subset_afacts(prog, *lhs_ty, *rhs_expr, k),
                            ),
                        ),
                    ));
                }
            },
        }
    }
}

/// Well-formedness of a prefix of parameter pairs follows from that
/// of a longer prefix.
pub proof fn lemma_params_relate_ok_prefix(
    ls: Seq<Parameter>,
    rs: Seq<Parameter>,
    m: int,
    n: int,
)
    requires
        0 <= m <= n,
        n <= ls.len(),
        n <= rs.len(),
        crate::model::params_relate_ok(ls, rs, n),
    ensures
        crate::model::params_relate_ok(ls, rs, m),
    decreases n - m,
{
    if m < n {
        lemma_params_relate_ok_prefix(ls, rs, m + 1, n);
    }
}

impl<'a> FactEmitter<'a> {
    /// Emits the control-flow edges of one block: an edge between
    /// consecutive statements, then one edge from the block's last
    /// node to the first node of each successor.
    #[verifier::loop_isolation(false)]
    pub fn emit_cfg_edges(&self, bb: &BasicBlock, facts: &mut Facts)
        requires
            self.simple_node_names ==> block_codes_ok(self.program, *bb),
        ensures
            facts_view(*final(facts)) == facts_view(*old(facts)).add_view(
                crate::model::relabel(
                    self.program,
                    self.simple_node_names,
                    crate::model::afacts_cfg(crate::model::block_cfg(*bb)),
                ),
            ),
    {
        broadcast use crate::facts::lemma_add_view_assoc;
        broadcast use crate::facts::lemma_add_view_empty;

        let ghost prog = self.program;
        let ghost simple = self.simple_node_names;
        let ghost edges = crate::model::block_cfg(*bb);
        let ghost base = facts_view(*facts);
        let statement_count = bb.statements.len();
        let ghost intra_len: int = if statement_count > 0 {
            statement_count - 1
        } else {
            0
        };
        let mut idx: usize = 1;
        proof {
            assert(crate::model::relabel(prog, simple, crate::model::afacts_cfg(edges.take(0)))
                =~~= crate::facts::empty_view());
        }
        while idx < statement_count
            invariant
                1 <= idx,
                statement_count > 0 ==> idx <= statement_count,
                statement_count == 0 ==> idx == 1,
                facts_view(*facts) == base.add_view(
                    crate::model::relabel(
                        prog,
                        simple,
                        crate::model::afacts_cfg(edges.take(idx - 1)),
                    ),
                ),
            decreases statement_count - idx,
        {
            let from = self.node_at(bb.name.as_str(), idx - 1);
            let to = self.node_at(bb.name.as_str(), idx);
            crate::facts::push_edge(facts, from, to);
            proof {
                assert(edges[idx - 1] == (
                    NodeKey { block: bb.name@, idx: idx - 1 },
                    NodeKey { block: bb.name@, idx: idx as int },
                ));
                assert(edges.take(idx as int) =~= edges.take(idx - 1).push(edges[idx - 1]));
                assert(crate::model::relabel(
                    prog,
                    simple,
                    crate::model::afacts_cfg(edges.take(idx as int)),
                ) =~~= crate::model::relabel(
                    prog,
                    simple,
                    crate::model::afacts_cfg(edges.take(idx - 1)),
                ).add_view(
                    crate::facts::view_edge(
                        label_of(prog, simple, edges[idx - 1].0),
                        label_of(prog, simple, edges[idx - 1].1),
                    ),
                ));
            }
            idx = idx + 1;
        }
        let last: usize = if statement_count == 0 {
            0
        } else {
            statement_count - 1
        };
        let ns = bb.successors.len();
        let mut j: usize = 0;
        proof {
            assert(intra_len == idx - 1);
            assert(edges.take(intra_len + 0) == edges.take(idx - 1));
        }
        while j < ns
            invariant
                0 <= j <= ns,
                facts_view(*facts) == base.add_view(
                    crate::model::relabel(
                        prog,
                        simple,
                        crate::model::afacts_cfg(edges.take(intra_len + j)),
                    ),
                ),
            decreases ns - j,
        {
            let from = self.node_at(bb.name.as_str(), last);
            let to = self.node_at(bb.successors[j].as_str(), 0);
            crate::facts::push_edge(facts, from, to);
            proof {
                assert(edges[intra_len + j] == (
                    NodeKey { block: bb.name@, idx: crate::model::block_slots(*bb) - 1 },
                    NodeKey { block: bb.successors@[j as int]@, idx: 0 },
                ));
                assert(edges.take(intra_len + j + 1) =~= edges.take(intra_len + j).push(
                    edges[intra_len + j],
                ));
                assert(crate::model::relabel(
                    prog,
                    simple,
                    crate::model::afacts_cfg(edges.take(intra_len + j + 1)),
                ) =~~= crate::model::relabel(
                    prog,
                    simple,
                    crate::model::afacts_cfg(edges.take(intra_len + j)),
                ).add_view(
                    crate::facts::view_edge(
                        label_of(prog, simple, edges[intra_len + j].0),
                        label_of(prog, simple, edges[intra_len + j].1),
                    ),
                ));
            }
            j = j + 1;
        }
        proof {
            assert(edges.take(intra_len + ns as int) =~= edges);
        }
    }

    /// Emits every fact of one block: its control-flow edges, then,
    /// statement by statement, the node's source text, the clears of
    /// an assigned place's origins, the invalidations of a written
    /// non-reference place's loans, the facts of the evaluated
    /// expression, and the subsets the assignment introduces.
    #[verifier::loop_isolation(false)]
    #[verifier::rlimit(80)]
    pub fn emit_block_facts(&self, bb: &BasicBlock, facts: &mut Facts)
        requires
            self.wf(),
            forall|i: int|
                0 <= i < bb.statements@.len() ==> crate::model::stmt_ok(
                    self.program,
                    self.input@,
                    #[trigger] bb.statements@[i],
                ),
            self.simple_node_names ==> block_codes_ok(self.program, *bb),
        ensures
            facts_view(*final(facts)) == facts_view(*old(facts)).add_view(
                crate::model::relabel(
                    self.program,
                    self.simple_node_names,
                    crate::model::block_afacts(self.program, self.input@, *bb),
                ),
            ),
    {
        broadcast use crate::facts::lemma_add_view_assoc;
        broadcast use crate::facts::lemma_add_view_empty;
        broadcast use crate::model::lemma_relabel_add;
        broadcast use crate::model::lemma_empty_view;
        broadcast use crate::facts::lemma_afacts_add_assoc;
        broadcast use crate::facts::lemma_afacts_add_empty;

        let ghost prog = self.program;
        let ghost simple = self.simple_node_names;
        let ghost inp = self.input@;
        let ghost base = facts_view(*facts);
        self.emit_cfg_edges(bb, facts);
        let n = bb.statements.len();
        let mut idx: usize = 0;
        while idx < n
            invariant
                0 <= idx <= n,
                facts_view(*facts) == base.add_view(
                    crate::model::relabel(
                        prog,
                        simple,
                        crate::model::afacts_cfg(crate::model::block_cfg(*bb)).add(
                            crate::model::stmts_afacts(
                                prog,
                                inp,
                                bb.name@,
                                bb.statements@,
                                idx as int,
                            ),
                        ),
                    ),
                ),
            decreases n - idx,
        {
            let s = &bb.statements[idx];
            let node = self.node_at(bb.name.as_str(), idx);
            let ghost k = NodeKey { block: bb.name@, idx: idx as int };
            let text = self.input.substring_char(s.span.start, s.span.end - 1);
            crate::facts::push_text(facts, text.to_owned(), node.clone());
            proof {
                assert(crate::model::relabel(
                    prog,
                    simple,
                    (AFacts {
                        node_text: seq![(crate::model::stmt_text(inp, *s), k)],
                        ..AFacts::empty()
                    }),
                ) =~~= crate::facts::view_text(text@, node@));
            }
            match &s.kind {
                StatementKind::Assign(place, expr) => {
                    let lhs_ty = self.ty_of_place(place);
                    let lhs_origins = self.origins_of_place(place);
                    self.push_clear_origins(facts, &lhs_origins, &node, Ghost(k));
                    if !lhs_ty.is_ref() {
                        self.push_invalidations(facts, place, &node, Ghost(k));
                    }
                    self.emit_expr_facts(&node, expr, facts, Ghost(k));
                    self.emit_subset_facts(&node, lhs_ty, expr, facts, Ghost(k));
                },
                StatementKind::Expr(expr) => {
                    self.emit_expr_facts(&node, expr, facts, Ghost(k));
                },
            }
            proof {
                assert(crate::model::stmts_afacts(prog, inp, bb.name@, bb.statements@, idx + 1)
                    == crate::model::stmts_afacts(
                    prog,
                    inp,
                    bb.name@,
                    bb.statements@,
                    idx as int,
                ).add(crate::model::stmt_afacts(prog, inp, bb.name@, idx as int, *s)));
            }
            idx = idx + 1;
        }
    }

    /// Emits every fact of the program, block by block, into `facts`.
    /// The emitted sequences are a function of the program, the input
    /// text, and the naming mode alone, so two runs on equal inputs
    /// emit identical fact sequences.
    #[verifier::loop_isolation(false)]
    pub fn emit_facts(&self, facts: &mut Facts)
        requires
            self.wf(),
            crate::model::program_ok(self.program, self.input@),
            self.simple_node_names ==> crate::model::program_codes_ok(self.program),
        ensures
            facts_view(*final(facts)) == facts_view(*old(facts)).add_view(
                crate::model::relabel(
                    self.program,
                    self.simple_node_names,
                    crate::model::program_afacts(self.program, self.input@),
                ),
            ),
    {
        broadcast use crate::facts::lemma_add_view_assoc;
        broadcast use crate::facts::lemma_add_view_empty;
        broadcast use crate::model::lemma_relabel_add;
        broadcast use crate::model::lemma_empty_view;

        let ghost prog = self.program;
        let ghost simple = self.simple_node_names;
        let ghost inp = self.input@;
        let ghost base = facts_view(*facts);
        let nb = self.program.basic_blocks.len();
        let mut b: usize = 0;
        proof {
            assert(base.add_view(
                crate::model::relabel(prog, simple, crate::model::blocks_afacts(prog, inp, 0)),
            ) =~~= base);
        }
        while b < nb
            invariant
                0 <= b <= nb,
                facts_view(*facts) == base.add_view(
                    crate::model::relabel(
                        prog,
                        simple,
                        crate::model::blocks_afacts(prog, inp, b as int),
                    ),
                ),
            decreases nb - b,
        {
            self.emit_block_facts(&self.program.basic_blocks[b], facts);
            b = b + 1;
        }
    }
}

/// Emits every fact of `program`, parsed from `input`, with default
/// node names. The result is fully determined by the two arguments.
pub fn emit_facts(program: Program, input: &str) -> (r: Facts)
    requires
        crate::model::program_ok(program, input@),
    ensures
        facts_view(r) == crate::model::relabel(
            program,
            false,
            crate::model::program_afacts(program, input@),
        ),
{
    broadcast use crate::facts::lemma_add_view_empty;

    let emitter = FactEmitter::new(program, input, false);
    let mut facts = Facts::new();
    emitter.emit_facts(&mut facts);
    facts
}

} // verus!