//! Types of the source language.
//!
//! A [`Type`] is an immutable value. Two types are the same type exactly when
//! they have the same shape, so a type is its own canonical representative:
//! building the same shape twice gives two equal handles.

use vstd::prelude::*;
use vstd::std_specs::cmp::PartialEqSpecImpl;
use vstd::string::StringExecFns;

verus! {

/// The shape of a type: everything two types must agree on to be the same.
pub enum TypeView {
    Void,
    Bool,
    Int,
    Func(Seq<TypeView>, Box<TypeView>),
}

/// The kind of a type, as the parser and the analyzer build it.
#[derive(Debug, Hash)]
pub enum TypeKind {
    Void,
    /// The boolean type. The source language cannot name it, but intermediate
    /// results may have it.
    Bool,
    /// The integer type.
    Int,
    /// A function type: parameter types and return type.
    Func(Vec<Type>, Type),
}

/// A type of the source language.
#[derive(Debug, Hash)]
pub struct Type(Box<TypeKind>);

/// The shapes of a list of types, in order.
pub open spec fn type_views(types: Seq<Type>) -> Seq<TypeView> {
    Seq::new(types.len(), |i: int| types[i]@)
}

impl TypeView {
    /// How many bytes a value of this type occupies. A function has no size.
    pub open spec fn bytewidth(self) -> nat {
        match self {
            TypeView::Void => 0,
            TypeView::Bool => 1,
            TypeView::Int => 4,
            TypeView::Func(..) => 0,
        }
    }

    /// The parameter types of a function type; empty for any other type.
    pub open spec fn params(self) -> Seq<TypeView> {
        match self {
            TypeView::Func(params, _) => params,
            _ => Seq::empty(),
        }
    }

    /// The name of this type as the source language writes it: `void`,
    /// `bool`, `int`, and for a function its return type followed by the
    /// parameter types in parentheses, separated by a comma and a space.
    pub open spec fn display(self) -> Seq<char>
        decreases self, 0nat,
    {
        match self {
            TypeView::Void => "void"@,
            TypeView::Bool => "bool"@,
            TypeView::Int => "int"@,
            TypeView::Func(params, ret) => ret.display() + "("@ + display_list(params, params.len())
                + ")"@,
        }
    }

    /// Whether a value of this type can be held in a variable or a constant.
    pub open spec fn is_scalar(self) -> bool {
        self is Bool || self is Int
    }
}

/// The names of the first `n` types of `types`, separated by a comma and a
/// space.
pub open spec fn display_list(types: Seq<TypeView>, n: nat) -> Seq<char>
    decreases types, n,
{
    if n == 0 || n > types.len() {
        Seq::empty()
    } else if n == 1 {
        types[0].display()
    } else {
        display_list(types, (n - 1) as nat) + ", "@ + types[n - 1].display()
    }
}

impl TypeKind {
    pub open spec fn view(&self) -> TypeView
        decreases self,
    {
        match self {
            TypeKind::Void => TypeView::Void,
            TypeKind::Bool => TypeView::Bool,
            TypeKind::Int => TypeView::Int,
            TypeKind::Func(params, ret) => TypeView::Func(
                Seq::new(
                    params@.len(),
                    |i: int|
                        if 0 <= i < params@.len() {
                            params@[i].view()
                        } else {
                            TypeView::Void
                        },
                ),
                Box::new(ret.view()),
            ),
        }
    }

    /// The view of a function kind is built from the views of its parts.
    pub proof fn lemma_view_func(params: Vec<Type>, ret: Type)
        ensures
            TypeKind::Func(params, ret)@ == TypeView::Func(type_views(params@), Box::new(ret@)),
    {
        assert(TypeKind::Func(params, ret)@.params() =~= type_views(params@));
    }

    /// Structural comparison of two kinds.
    #[verifier::loop_isolation(false)]
    fn same(&self, other: &TypeKind) -> (r: bool)
        ensures
            r == (self@ == other@),
        decreases self,
    {
        match (self, other) {
            (TypeKind::Void, TypeKind::Void) => true,
            (TypeKind::Bool, TypeKind::Bool) => true,
            (TypeKind::Int, TypeKind::Int) => true,
            (TypeKind::Func(ours, our_ret), TypeKind::Func(theirs, their_ret)) => {
                proof {
                    TypeKind::lemma_view_func(*ours, *our_ret);
                    TypeKind::lemma_view_func(*theirs, *their_ret);
                }
                if ours.len() != theirs.len() {
                    assert(type_views(ours@).len() != type_views(theirs@).len());
                    return false;
                }
                if !our_ret.same(their_ret) {
                    return false;
                }
                let mut i: usize = 0;
                while i < ours.len()
                    invariant
                        i <= ours.len(),
                        ours.len() == theirs.len(),
                        forall|j: int| 0 <= j < i ==> ours@[j]@ == theirs@[j]@,
                    decreases ours.len() - i,
                {
                    if !ours[i].same(&theirs[i]) {
                        assert(type_views(ours@)[i as int] != type_views(theirs@)[i as int]);
                        return false;
                    }
                    i += 1;
                }
                assert(type_views(ours@) =~= type_views(theirs@));
                true
            },
            _ => false,
        }
    }

    /// A deep copy of a kind.
    #[verifier::loop_isolation(false)]
    fn duplicate(&self) -> (r: TypeKind)
        ensures
            r@ == self@,
        decreases self,
    {
        match self {
            TypeKind::Void => TypeKind::Void,
            TypeKind::Bool => TypeKind::Bool,
            TypeKind::Int => TypeKind::Int,
            TypeKind::Func(params, ret) => {
                let mut copies: Vec<Type> = Vec::new();
                let mut i: usize = 0;
                while i < params.len()
                    invariant
                        i <= params.len(),
                        copies.len() == i,
                        forall|j: int| 0 <= j < i ==> copies@[j]@ == params@[j]@,
                    decreases params.len() - i,
                {
                    copies.push(params[i].duplicate());
                    i += 1;
                }
                let ret_copy = ret.duplicate();
                proof {
                    TypeKind::lemma_view_func(*params, *ret);
                    TypeKind::lemma_view_func(copies, ret_copy);
                    assert(type_views(copies@) =~= type_views(params@));
                }
                TypeKind::Func(copies, ret_copy)
            },
        }
    }
}

impl Clone for TypeKind {
    fn clone(&self) -> (r: Self)
        ensures
            r@ == self@,
    {
        self.duplicate()
    }
}

impl PartialEq for TypeKind {
    fn eq(&self, other: &Self) -> (r: bool) {
        self.same(other)
    }
}

impl PartialEqSpecImpl for TypeKind {
    open spec fn obeys_eq_spec() -> bool {
        true
    }

    open spec fn eq_spec(&self, other: &Self) -> bool {
        self@ == other@
    }
}

impl Eq for TypeKind {}

impl Type {
    /// The shape of this type.
    pub closed spec fn view(&self) -> TypeView
        decreases self,
    {
        self.0.view()
    }

    /// Structural comparison of two types.
    fn same(&self, other: &Type) -> (r: bool)
        ensures
            r == (self@ == other@),
        decreases self,
    {
        self.0.same(&*other.0)
    }

    /// A deep copy of a type.
    fn duplicate(&self) -> (r: Type)
        ensures
            r@ == self@,
        decreases self,
    {
        Type(Box::new(self.0.duplicate()))
    }

    /// The type of the given kind. Building the same kind twice gives equal
    /// types.
    pub fn make(kind: TypeKind) -> (r: Type)
        ensures
            r@ == kind@,
    {
        Type(Box::new(kind))
    }

    /// The kind of this type.
    pub fn kind(&self) -> (r: &TypeKind)
        ensures
            r@ == self@,
    {
        &*self.0
    }

    /// The void type.
    pub fn void() -> (r: Type)
        ensures
            r@ == TypeView::Void,
    {
        Type::make(TypeKind::Void)
    }

    /// The boolean type.
    pub fn bool() -> (r: Type)
        ensures
            r@ == TypeView::Bool,
    {
        Type::make(TypeKind::Bool)
    }

    /// The integer type.
    pub fn int_() -> (r: Type)
        ensures
            r@ == TypeView::Int,
    {
        Type::make(TypeKind::Int)
    }

    /// The type of a function with the given parameter types and return type.
    pub fn func(params: Vec<Type>, ret: Type) -> (r: Type)
        ensures
            r@ == TypeView::Func(type_views(params@), Box::new(ret@)),
    {
        proof {
            TypeKind::lemma_view_func(params, ret);
        }
        Type::make(TypeKind::Func(params, ret))
    }

    /// Whether this is the integer type.
    pub fn is_int(&self) -> (r: bool)
        ensures
            r == (self@ is Int),
    {
        matches!(self.kind(), TypeKind::Int)
    }

    /// Whether this is the boolean type.
    pub fn is_bool(&self) -> (r: bool)
        ensures
            r == (self@ is Bool),
    {
        matches!(self.kind(), TypeKind::Bool)
    }

    /// Whether this is the void type.
    pub fn is_void(&self) -> (r: bool)
        ensures
            r == (self@ is Void),
    {
        matches!(self.kind(), TypeKind::Void)
    }

    /// The parameter types and the return type of a function type.
    pub fn unwrap_func(&self) -> (r: (&[Type], &Type))
        requires
            self@ is Func,
        ensures
            self@ == TypeView::Func(type_views(r.0@), Box::new(r.1@)),
    {
        match self.kind() {
            TypeKind::Func(params, ret) => {
                proof {
                    TypeKind::lemma_view_func(*params, *ret);
                }
                (params.as_slice(), ret)
            },
            _ => {
                vstd::pervasive::unreached()
            },
        }
    }

    /// The name of this type as the source language writes it.
    #[verifier::loop_isolation(false)]
    pub fn to_string(&self) -> (r: String)
        ensures
            r@ == self@.display(),
        decreases self,
    {
        match &*self.0 {
            TypeKind::Void => String::from_str("void"),
            TypeKind::Bool => String::from_str("bool"),
            TypeKind::Int => String::from_str("int"),
            TypeKind::Func(params, ret) => {
                proof {
                    TypeKind::lemma_view_func(*params, *ret);
                }
                let ghost shapes = type_views(params@);
                let mut text = ret.to_string();
                text.append("(");
                let mut i: usize = 0;
                while i < params.len()
                    invariant
                        i <= params.len(),
                        text@ == ret@.display() + "("@ + display_list(shapes, i as nat),
                    decreases params.len() - i,
                {
                    let ghost before = text@;
                    if i > 0 {
                        text.append(", ");
                    }
                    let item = params[i].to_string();
                    text.append(item.as_str());
                    i += 1;
                    assert(text@ =~= ret@.display() + "("@ + display_list(shapes, i as nat));
                }
                text.append(")");
                text
            },
        }
    }

    /// The number of bytes that a value of this type occupies.
    pub fn bytewidth(&self) -> (r: usize)
        requires
            !(self@ is Func),
        ensures
            r == self@.bytewidth(),
    {
        match self.kind() {
            TypeKind::Void => 0,
            TypeKind::Bool => 1,
            TypeKind::Int => 4,
            TypeKind::Func(_, _) => 0,
        }
    }
}

/// Types are canonical: two types made from kinds of one shape are one
/// type, whatever was made in between, and comparing them says so.
pub proof fn lemma_same_shape_same_type(a: Type, b: Type, first: TypeKind, second: TypeKind)
    requires
        a@ == first@,
        b@ == second@,
        first@ == second@,
    ensures
        a@ == b@,
        vstd::std_specs::cmp::PartialEqSpec::eq_spec(&a, &b),
        vstd::std_specs::cmp::PartialEqSpec::eq_spec(&b, &a),
{
}

impl Clone for Type {
    fn clone(&self) -> (r: Self)
        ensures
            r@ == self@,
    {
        self.duplicate()
    }
}

impl PartialEq for Type {
    fn eq(&self, other: &Self) -> (r: bool) {
        self.same(other)
    }
}

impl PartialEqSpecImpl for Type {
    open spec fn obeys_eq_spec() -> bool {
        true
    }

    open spec fn eq_spec(&self, other: &Self) -> bool {
        self@ == other@
    }
}

impl Eq for Type {}

} // verus!
