//! Types, as far as values and locals need them.

use crate::values::{FloatTy, IntegerTy};
use vstd::prelude::*;

verus! {

/// The index of a type variable.
#[derive(Clone, Copy, Debug, PartialEq, Eq, Structural, Hash)]
pub struct TypeVarId {
    pub index: usize,
}

/// The index of a type declaration.
#[derive(Clone, Copy, Debug, PartialEq, Eq, Structural, Hash)]
pub struct TypeDefId {
    pub index: usize,
}

/// The kind of a reference or of a raw pointer.
#[derive(Clone, Copy, Debug, PartialEq, Eq, Structural, Hash)]
pub enum RefKind {
    Mut,
    Shared,
}

/// What a reference or a box points to, as far as lowering reads it.
#[derive(Clone, Copy, Debug, PartialEq, Eq, Structural, Hash)]
pub enum Pointee {
    /// An array of the given length.
    Array(usize),
    Slice,
    Other,
}

/// A type with its regions erased, as far as the library reads it.
#[derive(Clone, Copy, Debug, PartialEq, Eq, Structural, Hash)]
pub enum Ty {
    Unit,
    Bool,
    Char,
    Never,
    Str,
    Integer(IntegerTy),
    Float(FloatTy),
    Adt(TypeDefId),
    TypeVar(TypeVarId),
    /// A tuple of so many parts.
    Tuple(usize),
    /// An array of the given length.
    Array(usize),
    Slice,
    Ref(RefKind, Pointee),
    RawPtr(RefKind, Pointee),
    /// A box.
    Boxed,
    /// Any other type.
    Other,
}

impl Ty {
    /// The type of the empty tuple.
    pub fn mk_unit() -> (ty: Ty)
        ensures
            ty == Ty::Unit,
    {
        Ty::Unit
    }

    /// Whether the type is the empty tuple.
    pub fn is_unit(&self) -> (b: bool)
        ensures
            b == (*self == Ty::Unit),
    {
        match self {
            Ty::Unit => true,
            _ => false,
        }
    }

    /// The type with every type variable replaced by what `subst` gives for it.
    pub open spec fn substituted(self, subst: Seq<Ty>) -> Ty {
        match self {
            Ty::TypeVar(v) => if v.index < subst.len() {
                subst[v.index as int]
            } else {
                self
            },
            _ => self,
        }
    }

    /// Replaces a type variable by the type that `subst` holds at its index; a
    /// variable beyond the list, and any other type, stays.
    pub fn substitute_types(&self, subst: &Vec<Ty>) -> (ty: Ty)
        ensures
            ty == self.substituted(subst@),
    {
        match self {
            Ty::TypeVar(v) => if v.index < subst.len() {
                subst[v.index]
            } else {
                *self
            },
            _ => *self,
        }
    }
}

} // verus!
