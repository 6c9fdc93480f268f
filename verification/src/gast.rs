//! What function and global declarations share: locals, bodies, declarations.

use crate::types::Ty;
use crate::ullbc::{FunDeclId, VarId};
use vstd::prelude::*;

verus! {

/// A local of a body.
#[derive(Debug)]
pub struct Var {
    /// The index of the local in the locals table.
    pub index: VarId,
    /// The name in the source, where the local has one.
    pub name: Option<String>,
    /// The type of the local.
    pub ty: Ty,
}

impl Var {
    /// The local with its type variables replaced as `subst` says.
    pub fn substitute(&self, subst: &Vec<Ty>) -> (v: Var)
        ensures
            v.index == self.index,
            v.name == self.name,
            v.ty == self.ty.substituted(subst@),
    {
        let name = match &self.name {
            Some(n) => Some(n.clone()),
            None => None,
        };
        Var { index: self.index, name, ty: self.ty.substitute_types(subst) }
    }
}

/// A stretch of a source file.
#[derive(Clone, Copy, Debug, PartialEq, Eq, Structural)]
pub struct Span {
    pub file: usize,
    pub begin_line: usize,
    pub begin_col: usize,
    pub end_line: usize,
    pub end_col: usize,
}

/// A body: the locals, the number of arguments, and the code in the form `T`.
#[derive(Debug)]
pub struct GExprBody<T> {
    pub span: Span,
    /// The number of arguments; they are the locals 1 to `arg_count`.
    pub arg_count: usize,
    /// The locals: the return value first, then the arguments, then the rest.
    pub locals: Vec<Var>,
    /// Comments of the source, each with the line that it belongs to.
    pub comments: Vec<(usize, Vec<String>)>,
    pub body: T,
}

/// Whether the table holds the return value and `arg_count` arguments, and every
/// local stands at its own index.
pub open spec fn locals_ordered(locals: Seq<Var>, arg_count: int) -> bool {
    &&& arg_count < locals.len()
    &&& forall|i: int| 0 <= i < locals.len() ==> (#[trigger] locals[i]).index.index == i
}

/// Tests the order of a locals table.
pub fn check_locals_ordered(locals: &Vec<Var>, arg_count: usize) -> (b: bool)
    ensures
        b == locals_ordered(locals@, arg_count as int),
{
    if !(arg_count < locals.len()) {
        return false;
    }
    let mut i: usize = 0;
    while i < locals.len()
        invariant
            i <= locals@.len(),
            arg_count < locals@.len(),
            forall|k: int| 0 <= k < i ==> (#[trigger] locals@[k]).index.index == k,
        decreases locals@.len() - i,
    {
        if locals[i].index.index != i {
            return false;
        }
        i = i + 1;
    }
    true
}

/// Adds a local with the given name and type at the end of the table and returns its index.
pub fn fresh_var(locals: &mut Vec<Var>, name: Option<String>, ty: Ty) -> (id: VarId)
    ensures
        id.index == old(locals)@.len(),
        final(locals)@ == old(locals)@.push(Var { index: id, name, ty }),
{
    let index = VarId { index: locals.len() };
    locals.push(Var { index, name, ty });
    index
}

/// What the source says of an item.
#[derive(Debug)]
pub struct ItemMeta {
    pub name: String,
    pub span: Span,
    /// Whether the item belongs to the crate that is translated.
    pub is_local: bool,
}

/// The numbers of generic parameters of an item.
#[derive(Clone, Copy, Debug, PartialEq, Eq, Structural)]
pub struct GenericParams {
    pub regions: usize,
    pub types: usize,
    pub const_generics: usize,
}

/// How a closure may be called.
#[derive(Clone, Copy, Debug, PartialEq, Eq, Structural)]
pub enum ClosureKind {
    Fn,
    FnMut,
    FnOnce,
}

/// What a closure is besides a function: how it may be called, and the types of
/// the values that it has captured.
#[derive(Debug)]
pub struct ClosureInfo {
    pub kind: ClosureKind,
    pub state: Vec<Ty>,
}

/// How many generic parameters and trait clauses a method has from the block
/// that it stands in.
#[derive(Clone, Copy, Debug, PartialEq, Eq, Structural)]
pub struct ParamsInfo {
    pub num_region_params: usize,
    pub num_type_params: usize,
    pub num_const_generic_params: usize,
    pub num_trait_clauses: usize,
}

/// The signature of a function.
#[derive(Debug)]
pub struct FunSig {
    pub is_unsafe: bool,
    pub is_closure: bool,
    /// For a closure, what is known of it.
    pub closure_info: Option<ClosureInfo>,
    pub generics: GenericParams,
    /// For a method, what it has from the block that it stands in.
    pub parent_params_info: Option<ParamsInfo>,
    pub inputs: Vec<Ty>,
    pub output: Ty,
}

/// What an item is with respect to traits.
#[derive(Debug)]
pub enum ItemKind {
    /// An item of its own, or of an inherent implementation.
    Regular,
    /// The declaration of an item in a trait.
    TraitDecl {
        trait_id: crate::krate::TraitDeclId,
        item_name: String,
        /// Whether the trait gives the item a default.
        has_default: bool,
    },
    /// The implementation of an item of a trait.
    TraitImpl {
        impl_id: crate::krate::TraitImplId,
        trait_id: crate::krate::TraitDeclId,
        item_name: String,
        /// Whether the implementation takes the default of the trait.
        reuses_default: bool,
    },
}

/// A function declaration, with its code in the form `T` where it has code.
#[derive(Debug)]
pub struct GFunDecl<T> {
    pub def_id: FunDeclId,
    pub item_meta: ItemMeta,
    pub name: String,
    pub signature: FunSig,
    pub kind: ItemKind,
    pub body: Option<GExprBody<T>>,
}

/// A global declaration, with its code in the form `T` where it has code.
#[derive(Debug)]
pub struct GGlobalDecl<T> {
    pub def_id: crate::krate::GlobalDeclId,
    pub item_meta: ItemMeta,
    pub generics: GenericParams,
    pub name: String,
    pub ty: Ty,
    pub kind: ItemKind,
    pub body: Option<GExprBody<T>>,
}

impl<T> GFunDecl<T> {
    /// Whether the declaration has no code.
    pub fn is_opaque(&self) -> (b: bool)
        ensures
            b == (self.body is None),
    {
        self.body.is_none()
    }
}

impl<T> GGlobalDecl<T> {
    /// Whether the declaration has no code.
    pub fn is_opaque(&self) -> (b: bool)
        ensures
            b == (self.body is None),
    {
        self.body.is_none()
    }
}

/// The names and bodies of the first `n` function declarations that have a body.
pub open spec fn function_bodies<'a, T>(funs: Seq<GFunDecl<T>>, n: int) -> Seq<
    (&'a String, &'a GExprBody<T>),
>
    decreases n,
{
    if n <= 0 {
        seq![]
    } else {
        let before = function_bodies(funs, n - 1);
        match funs[n - 1].body {
            Some(b) => before.push((&funs[n - 1].name, &b)),
            None => before,
        }
    }
}

/// The names and bodies of the function declarations that have a body, in their order.
pub fn iter_function_bodies<T>(funs: &Vec<GFunDecl<T>>) -> (r: Vec<(&String, &GExprBody<T>)>)
    ensures
        r@ == function_bodies(funs@, funs@.len() as int),
{
    let mut r: Vec<(&String, &GExprBody<T>)> = Vec::new();
    let mut i: usize = 0;
    while i < funs.len()
        invariant
            i <= funs@.len(),
            r@ == function_bodies(funs@, i as int),
        decreases funs@.len() - i,
    {
        match &funs[i].body {
            Some(b) => {
                r.push((&funs[i].name, b));
            },
            None => {},
        }
        i = i + 1;
    }
    r
}

/// The names and bodies of the first `n` global declarations that have a body.
pub open spec fn global_bodies<'a, T>(globals: Seq<GGlobalDecl<T>>, n: int) -> Seq<
    (&'a String, &'a GExprBody<T>),
>
    decreases n,
{
    if n <= 0 {
        seq![]
    } else {
        let before = global_bodies(globals, n - 1);
        match globals[n - 1].body {
            Some(b) => before.push((&globals[n - 1].name, &b)),
            None => before,
        }
    }
}

/// The names and bodies of the global declarations that have a body, in their order.
pub fn iter_global_bodies<T>(globals: &Vec<GGlobalDecl<T>>) -> (r: Vec<(&String, &GExprBody<T>)>)
    ensures
        r@ == global_bodies(globals@, globals@.len() as int),
{
    let mut r: Vec<(&String, &GExprBody<T>)> = Vec::new();
    let mut i: usize = 0;
    while i < globals.len()
        invariant
            i <= globals@.len(),
            r@ == global_bodies(globals@, i as int),
        decreases globals@.len() - i,
    {
        match &globals[i].body {
            Some(b) => {
                r.push((&globals[i].name, b));
            },
            None => {},
        }
        i = i + 1;
    }
    r
}

/// The greatest index among the first `n` locals, and 0 where there is none.
pub open spec fn greatest_index(locals: Seq<Var>, n: int) -> int
    decreases n,
{
    if n <= 0 {
        0
    } else {
        let before = greatest_index(locals, n - 1);
        if locals[n - 1].index.index > before {
            locals[n - 1].index.index as int
        } else {
            before
        }
    }
}

/// Hands out the indices of new locals.
#[derive(Clone, Copy, Debug)]
pub struct LocalsGenerator {
    /// The index that was handed out last.
    pub next_id: usize,
}

/// A generator that starts behind the greatest index of the table.
pub fn make_locals_generator(locals: &Vec<Var>) -> (gen: LocalsGenerator)
    ensures
        gen.next_id == greatest_index(locals@, locals@.len() as int),
{
    let mut next_id: usize = 0;
    let mut i: usize = 0;
    while i < locals.len()
        invariant
            i <= locals@.len(),
            next_id == greatest_index(locals@, i as int),
        decreases locals@.len() - i,
    {
        if locals[i].index.index > next_id {
            next_id = locals[i].index.index;
        }
        i = i + 1;
    }
    LocalsGenerator { next_id }
}

impl LocalsGenerator {
    /// Adds a local without a name, of the given type, under the next index.
    pub fn generate(&mut self, locals: &mut Vec<Var>, ty: Ty) -> (id: VarId)
        requires
            old(self).next_id < usize::MAX,
        ensures
            id.index == old(self).next_id + 1,
            final(self).next_id == id.index,
            final(locals)@ == old(locals)@.push(Var { index: id, name: None, ty }),
    {
        self.next_id = self.next_id + 1;
        let id = VarId { index: self.next_id };
        locals.push(Var { index: id, name: None, ty });
        id
    }
}

} // verus!
