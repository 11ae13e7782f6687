//! The program model: types, places, expressions, statements, basic
//! blocks, and whole programs, together with the origin traversal
//! over types.

use vstd::prelude::*;

verus! {

/// An interned string; origin names conventionally begin with `'`.
/// Two names compare by string equality.
pub type Name = String;

/// A generic argument of a struct type: either an origin or a type.
pub enum Parameter {
    Origin(Name),
    Ty(Ty),
}

/// The representation of value types. Types form a finite tree.
pub enum Ty {
    I32,
    Unit,
    Ref { origin: Name, ty: Box<Ty> },
    RefMut { origin: Name, ty: Box<Ty> },
    Struct { name: Name, parameters: Vec<Parameter> },
}

/// A syntactic l-value: a base variable, prefixed by `*` when the
/// base is dereferenced, followed by a field path. Empty `fields`
/// denotes a complete place.
pub struct Place {
    pub base: Name,
    pub fields: Vec<Name>,
}

/// The way a place is accessed on the right-hand side of a statement.
pub enum AccessKind {
    Borrow(Name),
    BorrowMut(Name),
    Copy,
    Move,
}

/// An expression: a number literal, an access of a place, or a call.
pub enum Expr {
    Number { value: i32 },
    Access { kind: AccessKind, place: Place },
    Call { callee: Name, arguments: Vec<Expr> },
}

/// Range of a statement in the source text, in character positions;
/// the end includes the statement's trailing separator.
pub struct Span {
    pub start: usize,
    pub end: usize,
}

/// A statement of a basic block: an assignment or a bare expression.
pub enum StatementKind {
    Assign(Place, Expr),
    Expr(Expr),
}

/// A statement together with its source-text span.
pub struct Statement {
    pub kind: StatementKind,
    pub span: Span,
}

/// A labelled basic block with its statements and successor labels,
/// in declaration order.
pub struct BasicBlock {
    pub name: Name,
    pub statements: Vec<Statement>,
    pub successors: Vec<Name>,
}

/// A variable or field declaration.
pub struct VariableDecl {
    pub name: Name,
    pub ty: Ty,
}

/// A generic parameter of a struct or function: an origin or a type.
pub enum GenericDecl {
    Origin(Name),
    Ty(Name),
}

/// A struct declaration with its generic parameters and fields.
pub struct StructDecl {
    pub name: Name,
    pub generic_decls: Vec<GenericDecl>,
    pub field_decls: Vec<VariableDecl>,
}

/// A function prototype; only the shape is kept, no body.
pub struct FnPrototype {
    pub name: Name,
    pub generic_decls: Vec<GenericDecl>,
    pub arg_tys: Vec<Ty>,
    pub ret_ty: Ty,
}

/// A whole input program.
pub struct Program {
    pub struct_decls: Vec<StructDecl>,
    pub fn_prototypes: Vec<FnPrototype>,
    pub variables: Vec<VariableDecl>,
    pub basic_blocks: Vec<BasicBlock>,
}

/// The views of a sequence of names.
pub open spec fn names_view(s: Seq<Name>) -> Seq<Seq<char>> {
    s.map_values(|n: Name| n@)
}

pub broadcast proof fn lemma_names_view_push(s: Seq<Name>, n: Name)
    ensures
        #[trigger] names_view(s.push(n)) == names_view(s).push(n@),
{
    assert(names_view(s.push(n)) =~= names_view(s).push(n@));
}

pub broadcast proof fn lemma_names_view_add(s: Seq<Name>, t: Seq<Name>)
    ensures
        #[trigger] names_view(s + t) == names_view(s) + names_view(t),
{
    assert(names_view(s + t) =~= names_view(s) + names_view(t));
}

/// A place's mathematical value: the base name and the field names.
pub open spec fn place_view(p: Place) -> (Seq<char>, Seq<Seq<char>>) {
    (p.base@, names_view(p.fields@))
}

/// The base variable name of a place, with any leading `*` stripped.
pub open spec fn base_name(p: Place) -> Seq<char> {
    if p.base@.len() > 0 && p.base@[0] == '*' {
        p.base@.skip(1)
    } else {
        p.base@
    }
}

/// The origins of a type, in tree pre-order, as the origin traversal
/// yields them: a reference contributes its origin and then the
/// origins of its referent; a struct's parameter list is scanned
/// left to right, collecting origin parameters, and the scan stops
/// after the first type parameter is descended into.
pub open spec fn ty_origins(t: Ty) -> Seq<Seq<char>>
    decreases t,
{
    match t {
        Ty::I32 => Seq::empty(),
        Ty::Unit => Seq::empty(),
        Ty::Ref { origin, ty } => seq![origin@] + ty_origins(*ty),
        Ty::RefMut { origin, ty } => seq![origin@] + ty_origins(*ty),
        Ty::Struct { name, parameters } => params_origins(parameters@, 0),
    }
}

/// The origins contributed by a struct's parameters from index `i`
/// on: origin parameters are collected in order, and the first type
/// parameter ends the scan with its own origins.
pub open spec fn params_origins(ps: Seq<Parameter>, i: int) -> Seq<Seq<char>>
    decreases ps, ps.len() - i,
{
    if i < 0 || i >= ps.len() {
        Seq::empty()
    } else {
        match ps[i] {
            Parameter::Origin(o) => seq![o@] + params_origins(ps, i + 1),
            Parameter::Ty(t) => ty_origins(t),
        }
    }
}

/// Whether a type is a shared or unique reference at its top level.
pub open spec fn is_ref_ty(t: Ty) -> bool {
    match t {
        Ty::Ref { .. } => true,
        Ty::RefMut { .. } => true,
        _ => false,
    }
}

impl Ty {
    /// Whether this type is a reference at its top level.
    pub fn is_ref(&self) -> (r: bool)
        ensures
            r == is_ref_ty(*self),
    {
        matches!(self, Ty::Ref { .. } | Ty::RefMut { .. })
    }

    /// Whether this type contains origins, following the same
    /// traversal as `collect_origins_into`.
    pub fn has_origins(&self) -> (r: bool)
        ensures
            r == (ty_origins(*self).len() > 0),
        decreases *self,
    {
        broadcast use vstd::std_specs::vec::axiom_vec_index_decreases;

        match self {
            Ty::I32 => false,
            Ty::Unit => false,
            Ty::Ref { .. } => true,
            Ty::RefMut { .. } => true,
            Ty::Struct { name, parameters } => {
                proof {
                    assert(*self == Ty::Struct { name: *name, parameters: *parameters });
                    assert(ty_origins(*self) == params_origins(parameters@, 0));
                }
                if parameters.len() == 0 {
                    false
                } else {
                    match &parameters[0] {
                        Parameter::Origin(_) => true,
                        Parameter::Ty(t) => {
                            proof {
                                let sv = Ty::Struct { name: *name, parameters: *parameters };
                                assert(decreases_to!(sv => sv->Struct_parameters));
                                assert(decreases_to!(*parameters => parameters@));
                                let p0 = parameters@[0];
                                assert(decreases_to!(parameters@ => p0));
                                assert(decreases_to!(p0 => p0->Ty_0));
                            }
                            t.has_origins()
                        },
                    }
                }
            },
        }
    }

    /// Appends every origin of this type, in traversal order, to
    /// `origins`.
    pub fn collect_origins_into(&self, origins: &mut Vec<Name>)
        ensures
            names_view(final(origins)@) == names_view(old(origins)@) + ty_origins(*self),
        decreases *self,
    {
        broadcast use vstd::std_specs::vec::axiom_vec_index_decreases;
        broadcast use lemma_names_view_push;
        broadcast use lemma_names_view_add;

        match self {
            Ty::I32 => {
                assert(names_view(origins@) =~= names_view(origins@) + ty_origins(*self));
            },
            Ty::Unit => {
                assert(names_view(origins@) =~= names_view(origins@) + ty_origins(*self));
            },
            Ty::Ref { origin, ty } => {
                origins.push(origin.clone());
                ty.collect_origins_into(origins);
                assert(names_view(origins@) =~= names_view(old(origins)@) + ty_origins(*self));
            },
            Ty::RefMut { origin, ty } => {
                origins.push(origin.clone());
                ty.collect_origins_into(origins);
                assert(names_view(origins@) =~= names_view(old(origins)@) + ty_origins(*self));
            },
            Ty::Struct { name, parameters } => {
                proof {
                    let sv = Ty::Struct { name: *name, parameters: *parameters };
                    assert(decreases_to!(sv => sv->Struct_parameters));
                    assert(decreases_to!(*parameters => parameters@));
                }
                collect_params_origins(parameters, 0, origins);
            },
        }
    }
}

/// Appends the origins contributed by a struct's parameters from
/// index `i` on, in traversal order, to `origins`.
fn collect_params_origins(parameters: &Vec<Parameter>, i: usize, origins: &mut Vec<Name>)
    ensures
        names_view(final(origins)@) == names_view(old(origins)@) + params_origins(
            parameters@,
            i as int,
        ),
    decreases parameters@, parameters@.len() - i,
{
    broadcast use vstd::std_specs::vec::axiom_vec_index_decreases;
    broadcast use lemma_names_view_push;

    if i >= parameters.len() {
        assert(names_view(origins@) =~= names_view(origins@) + params_origins(
            parameters@,
            i as int,
        ));
        return ;
    }
    match &parameters[i] {
        Parameter::Origin(o) => {
            origins.push(o.clone());
            collect_params_origins(parameters, i + 1, origins);
            assert(names_view(origins@) =~= names_view(old(origins)@) + params_origins(
                parameters@,
                i as int,
            ));
        },
        Parameter::Ty(t) => {
            proof {
                let pi = parameters@[i as int];
                assert(decreases_to!(parameters@ => pi));
                assert(decreases_to!(pi => pi->Ty_0));
                assert(pi->Ty_0 == *t);
            }
            t.collect_origins_into(origins);
        },
    }
}

impl Place {
    /// If the place's base is dereferenced, its name without the
    /// leading `*`.
    pub fn deref_base(&self) -> (r: Option<&str>)
        ensures
            match r {
                Some(s) => self.base@.len() > 0 && self.base@[0] == '*' && s@ == self.base@.skip(1),
                None => !(self.base@.len() > 0 && self.base@[0] == '*'),
            },
    {
        let b = self.base.as_str();
        if b.is_empty() {
            None
        } else if b.get_char(0) == '*' {
            let n = b.unicode_len();
            let rest = b.substring_char(1, n);
            proof {
                assert(rest@ =~= self.base@.skip(1));
            }
            Some(rest)
        } else {
            None
        }
    }

    /// The base variable name this place starts from, with any
    /// leading `*` stripped.
    pub fn base_str(&self) -> (r: &str)
        ensures
            r@ == base_name(*self),
    {
        match self.deref_base() {
            Some(s) => s,
            None => self.base.as_str(),
        }
    }

    /// Whether two places name the same base and fields.
    pub fn place_eq(&self, other: &Place) -> (r: bool)
        ensures
            r == (place_view(*self) == place_view(*other)),
    {
        if !(self.base == other.base) {
            return false;
        }
        if self.fields.len() != other.fields.len() {
            proof {
                assert(names_view(self.fields@).len() == self.fields@.len());
                assert(names_view(other.fields@).len() == other.fields@.len());
            }
            return false;
        }
        let n = self.fields.len();
        let mut i: usize = 0;
        while i < n
            invariant
                n == self.fields@.len() == other.fields@.len(),
                0 <= i <= n,
                forall|j: int| 0 <= j < i ==> self.fields@[j]@ == other.fields@[j]@,
            decreases n - i,
        {
            if !(self.fields[i] == other.fields[i]) {
                proof {
                    assert(names_view(self.fields@)[i as int] == self.fields@[i as int]@);
                    assert(names_view(other.fields@)[i as int] == other.fields@[i as int]@);
                }
                return false;
            }
            i = i + 1;
        }
        proof {
            assert(names_view(self.fields@) =~= names_view(other.fields@));
        }
        true
    }

    /// A copy of this place with the same base and fields.
    pub fn clone_place(&self) -> (r: Place)
        ensures
            place_view(r) == place_view(*self),
    {
        broadcast use lemma_names_view_push;

        let mut fields: Vec<Name> = Vec::new();
        let n = self.fields.len();
        let mut i: usize = 0;
        while i < n
            invariant
                n == self.fields@.len(),
                0 <= i <= n,
                fields@.len() == i,
                forall|j: int| 0 <= j < i ==> fields@[j]@ == self.fields@[j]@,
            decreases n - i,
        {
            fields.push(self.fields[i].clone());
            i = i + 1;
        }
        proof {
            assert(names_view(fields@) =~= names_view(self.fields@));
        }
        Place { base: self.base.clone(), fields }
    }
}

} // verus!
