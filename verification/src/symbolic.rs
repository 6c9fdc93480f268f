//! Values as an interpreter sees them: borrows, loans, symbolic and typed values.

use crate::formatter::{shows, BorrowId, BorrowIdFormatWrapper, Formatter, SymbolicId};
use crate::strings::{decimal, index_to_string, join, joined, texts};
use crate::types::{Ty, TypeDefId, TypeVarId};
use crate::ullbc::VariantId;
use crate::values::{ConstantValue, ScalarValue};
use vstd::prelude::*;
use vstd::string::StringExecFns;

verus! {

#[verifier::external_type_specification]
#[verifier::external_body]
#[verifier::reject_recursive_types(A)]
pub struct ExOrdSet<A>(im::OrdSet<A>);

/// The items of an ordered set of the `im` crate, from the lowest to the highest.
pub uninterp spec fn ord_set_items(s: im::OrdSet<usize>) -> Seq<usize>;

/// `im::OrdSet::contains`: whether the value is part of the set.
#[verifier::external_body]
pub(crate) fn ord_set_contains(s: &im::OrdSet<usize>, x: usize) -> (b: bool)
    ensures
        b == ord_set_items(*s).contains(x),
{
    s.contains(&x)
}

/// `im::OrdSet::iter`: the values of the set, which come out from the lowest to the
/// highest, each once.
#[verifier::external_body]
pub(crate) fn ord_set_to_vec(s: &im::OrdSet<usize>) -> (v: Vec<usize>)
    ensures
        v@ == ord_set_items(*s),
        forall|i: int, j: int| 0 <= i < j < v@.len() ==> v@[i] < v@[j],
{
    s.iter().copied().collect()
}

/// A region: the static one, or a region variable.
#[derive(Clone, Copy, Debug, PartialEq, Eq, Structural)]
pub enum Region {
    Static,
    Var(usize),
}

/// A symbolic value, with the regions inside it that have ended.
#[derive(Debug)]
pub struct SymbolicValue {
    /// The regions that have ended.
    pub ended: im::OrdSet<usize>,
    pub id: SymbolicId,
    pub ty: Ty,
}

impl SymbolicValue {
    /// Whether a region of `rset` has ended in this value.
    pub fn ended_intersects(&self, rset: &im::OrdSet<usize>) -> (b: bool)
        ensures
            b == exists|r: usize|
                ord_set_items(self.ended).contains(r) && ord_set_items(*rset).contains(r),
    {
        let ended = ord_set_to_vec(&self.ended);
        let mut i: usize = 0;
        while i < ended.len()
            invariant
                ended@ == ord_set_items(self.ended),
                i <= ended@.len(),
                forall|k: int| 0 <= k < i ==> !ord_set_items(*rset).contains(ended@[k]),
            decreases ended@.len() - i,
        {
            if ord_set_contains(rset, ended[i]) {
                assert(ord_set_items(self.ended).contains(ended@[i as int]));
                return true;
            }
            i = i + 1;
        }
        false
    }

    /// Whether the region has ended in this value; the static region never has.
    pub fn ended_contains(&self, region: &Region) -> (b: bool)
        ensures
            b == match *region {
                Region::Static => false,
                Region::Var(r) => ord_set_items(self.ended).contains(r),
            },
    {
        match region {
            Region::Static => false,
            Region::Var(rid) => ord_set_contains(&self.ended, *rid),
        }
    }
}

/// The one state of a symbolic value that has not been expanded.
#[derive(Clone, Copy, Debug, PartialEq, Eq, Structural)]
pub enum UnexpandedSymbolic {
    Unexpanded,
}

/// A value of a type that is built in.
#[derive(Clone, Copy, Debug)]
pub enum AssumedValue<Vid: Copy> {
    /// A box and the value inside.
    Box(Vid),
}

impl<Vid: Copy> AssumedValue<Vid> {
    pub fn is_box(&self) -> (b: bool)
        ensures
            b,
    {
        match self {
            AssumedValue::Box(_) => true,
        }
    }
}

/// A value borrowed from another.
#[derive(Clone, Copy, Debug)]
pub enum BorrowContent<Vid: Copy> {
    /// A shared borrow.
    Shared(BorrowId),
    /// A mutable borrow, with the value borrowed.
    Mut(BorrowId, Vid),
    /// A mutable borrow of two phases that has not been put to use.
    InactivatedMut(BorrowId),
}

impl<Vid: Copy> BorrowContent<Vid> {
    pub fn is_shared(&self) -> (b: bool)
        ensures
            b == (*self is Shared),
    {
        match self {
            BorrowContent::Shared(_) => true,
            _ => false,
        }
    }

    pub fn is_mut(&self) -> (b: bool)
        ensures
            b == (*self is Mut),
    {
        match self {
            BorrowContent::Mut(_, _) => true,
            _ => false,
        }
    }

    /// Whether `s` is a text of the borrow as `ctx` prints its parts.
    pub open spec fn shown<T: Formatter<Vid> + Formatter<BorrowIdFormatWrapper>>(
        self,
        ctx: &T,
        s: Seq<char>,
    ) -> bool {
        match self {
            BorrowContent::Shared(b) => shows(ctx, BorrowIdFormatWrapper::Shared(b), s),
            BorrowContent::Mut(b, v) => exists|bs: Seq<char>, vs: Seq<char>|
                #[trigger] shows(ctx, BorrowIdFormatWrapper::Mut(b), bs) && #[trigger] shows(
                    ctx,
                    v,
                    vs,
                ) && s == bs + " ("@ + vs + ")"@,
            BorrowContent::InactivatedMut(b) => shows(
                ctx,
                BorrowIdFormatWrapper::InactivatedMut(b),
                s,
            ),
        }
    }

    /// The borrow as text: the borrow as `ctx` prints it, and for a mutable borrow the
    /// borrowed value in round brackets behind it.
    pub fn fmt_with_ctx<T: Formatter<Vid> + Formatter<BorrowIdFormatWrapper>>(&self, ctx: &T) -> (s:
        String)
        ensures
            self.shown(ctx, s@),
    {
        match self {
            BorrowContent::Shared(b) => ctx.format_object(BorrowIdFormatWrapper::Shared(*b)),
            BorrowContent::Mut(b, v) => {
                let bs = ctx.format_object(BorrowIdFormatWrapper::Mut(*b));
                let vs = ctx.format_object(*v);
                let mut s = bs.clone();
                s.append(" (");
                s.append(vs.as_str());
                s.append(")");
                proof {
                    assert(shows(ctx, BorrowIdFormatWrapper::Mut(*b), bs@));
                    assert(shows(ctx, *v, vs@));
                }
                s
            },
            BorrowContent::InactivatedMut(b) => ctx.format_object(
                BorrowIdFormatWrapper::InactivatedMut(*b),
            ),
        }
    }
}

/// A value lent to another.
#[derive(Debug)]
pub enum LoanContent<Vid: Copy> {
    /// A shared loan: the borrows that share the value, and the value.
    Shared(im::OrdSet<usize>, Vid),
    /// A mutable loan: the borrow that holds the value.
    Mut(BorrowId),
}

/// The indices in decimal.
pub open spec fn decimals(ids: Seq<usize>) -> Seq<Seq<char>> {
    Seq::new(ids.len(), |i: int| decimal(ids[i] as nat))
}

impl<Vid: Copy> LoanContent<Vid> {
    pub fn is_shared(&self) -> (b: bool)
        ensures
            b == (*self is Shared),
    {
        match self {
            LoanContent::Shared(_, _) => true,
            _ => false,
        }
    }

    /// Whether `s` is a text of the loan as `ctx` prints the value.
    pub open spec fn shown<T: Formatter<Vid>>(self, ctx: &T, s: Seq<char>) -> bool {
        match self {
            LoanContent::Shared(loans, v) => exists|vs: Seq<char>|
                #[trigger] shows(ctx, v, vs) && s == "@shared_loan({"@ + joined(
                    decimals(ord_set_items(loans)),
                    ","@,
                ) + "}, "@ + vs + ")"@,
            LoanContent::Mut(b) => s == "⌊mut@"@ + decimal(b.index as nat) + "⌋"@,
        }
    }

    /// The loan as text: a shared loan with its borrows, from the lowest to the highest
    /// with commas between, and its value; a mutable loan with its borrow.
    pub fn fmt_with_ctx<T: Formatter<Vid>>(&self, ctx: &T) -> (s: String)
        ensures
            self.shown(ctx, s@),
    {
        match self {
            LoanContent::Shared(loans, v) => {
                let ids = ord_set_to_vec(loans);
                let mut parts: Vec<String> = Vec::new();
                let mut i: usize = 0;
                while i < ids.len()
                    invariant
                        i <= ids@.len(),
                        parts@.len() == i,
                        forall|k: int| 0 <= k < i ==> (#[trigger] parts@[k])@ == decimal(ids@[k] as nat),
                    decreases ids@.len() - i,
                {
                    parts.push(index_to_string(ids[i]));
                    i = i + 1;
                }
                assert(texts(parts@) =~= decimals(ids@));
                let vs = ctx.format_object(*v);
                let mut s = String::from_str("@shared_loan({");
                s.append(join(&parts, ",").as_str());
                s.append("}, ");
                s.append(vs.as_str());
                s.append(")");
                proof {
                    assert(shows(ctx, *v, vs@));
                }
                s
            },
            LoanContent::Mut(b) => {
                let mut s = String::from_str("⌊mut@");
                s.append(index_to_string(b.index).as_str());
                s.append("⌋");
                s
            },
        }
    }
}

#[verifier::external_type_specification]
#[verifier::external_body]
#[verifier::reject_recursive_types(A)]
pub struct ExVector<A>(im::Vector<A>);

/// The region of a type whose regions have been erased.
#[derive(Clone, Copy, Debug, PartialEq, Eq, Structural)]
pub enum ErasedRegion {
    Erased,
}

/// A value of a structure or of an enumeration.
#[derive(Debug)]
pub struct GAdtValue<Vid: Copy> {
    pub def_id: TypeDefId,
    /// The variant, for a value of an enumeration.
    pub variant_id: Option<VariantId>,
    /// The regions that the type is given.
    pub regions: im::Vector<ErasedRegion>,
    /// The types that the type is given.
    pub types: im::Vector<Ty>,
    pub field_values: Vec<Vid>,
}

impl<Vid: Copy> GAdtValue<Vid> {
    pub fn is_struct(&self) -> (b: bool)
        ensures
            b == (self.variant_id is None),
    {
        self.variant_id.is_none()
    }

    pub fn is_enum(&self) -> (b: bool)
        ensures
            b == (self.variant_id is Some),
    {
        self.variant_id.is_some()
    }
}

/// A value without its type.
#[derive(Debug)]
pub enum GValue<Vid: Copy, Sv> {
    /// A value of a structure or of an enumeration.
    Adt(GAdtValue<Vid>),
    /// A value that is not known.
    Symbolic(Sv),
    /// A constant.
    Concrete(ConstantValue),
    /// A tuple; the empty tuple is the unit value.
    Tuple(Vec<Vid>),
    Borrow(BorrowContent<Vid>),
    Loan(LoanContent<Vid>),
    /// No value: not initialised, or moved away.
    Bottom,
    Assumed(AssumedValue<Vid>),
}

impl<Vid: Copy, Sv> GValue<Vid, Sv> {
    /// The empty tuple.
    pub fn mk_unit() -> (v: GValue<Vid, Sv>)
        ensures
            v is Tuple,
            v->Tuple_0@.len() == 0,
    {
        GValue::Tuple(Vec::new())
    }

    pub fn is_box(&self) -> (b: bool)
        ensures
            b == (*self is Assumed),
    {
        match self {
            GValue::Assumed(v) => v.is_box(),
            _ => false,
        }
    }

    pub fn as_box(&self) -> (r: Option<Vid>)
        ensures
            r == match *self {
                GValue::Assumed(AssumedValue::Box(id)) => Some(id),
                _ => None,
            },
    {
        match self {
            GValue::Assumed(v) => match v {
                AssumedValue::Box(id) => Some(*id),
            },
            _ => None,
        }
    }

    pub fn is_mutable_borrow(&self) -> (b: bool)
        ensures
            b == (*self is Borrow && self->Borrow_0 is Mut),
    {
        match self {
            GValue::Borrow(b) => b.is_mut(),
            _ => false,
        }
    }

    pub fn as_mutable_borrow(&self) -> (r: Option<(BorrowId, Vid)>)
        ensures
            r == match *self {
                GValue::Borrow(BorrowContent::Mut(bid, vid)) => Some((bid, vid)),
                _ => None,
            },
    {
        match self {
            GValue::Borrow(b) => match b {
                BorrowContent::Mut(bid, vid) => Some((*bid, *vid)),
                _ => None,
            },
            _ => None,
        }
    }

    pub fn is_shared_borrow(&self) -> (b: bool)
        ensures
            b == (*self is Borrow && self->Borrow_0 is Shared),
    {
        match self {
            GValue::Borrow(b) => b.is_shared(),
            _ => false,
        }
    }

    pub fn as_shared_borrow(&self) -> (r: Option<BorrowId>)
        ensures
            r == match *self {
                GValue::Borrow(BorrowContent::Shared(id)) => Some(id),
                _ => None,
            },
    {
        match self {
            GValue::Borrow(b) => match b {
                BorrowContent::Shared(id) => Some(*id),
                _ => None,
            },
            _ => None,
        }
    }

    pub fn is_shared_loan(&self) -> (b: bool)
        ensures
            b == (*self is Loan && self->Loan_0 is Shared),
    {
        match self {
            GValue::Loan(b) => b.is_shared(),
            _ => false,
        }
    }

    pub fn as_shared_loan(&self) -> (r: Option<(&im::OrdSet<usize>, Vid)>)
        ensures
            match *self {
                GValue::Loan(LoanContent::Shared(ids, vid)) => r == Some((&ids, vid)),
                _ => r is None,
            },
    {
        match self {
            GValue::Loan(b) => match b {
                LoanContent::Shared(ids, vid) => Some((ids, *vid)),
                _ => None,
            },
            _ => None,
        }
    }

    pub fn is_inactivated_mut(&self) -> (b: bool)
        ensures
            b == (*self is Borrow && self->Borrow_0 is InactivatedMut),
    {
        match self {
            GValue::Borrow(b) => match b {
                BorrowContent::InactivatedMut(_) => true,
                _ => false,
            },
            _ => false,
        }
    }

    pub fn as_inactivated_mut(&self) -> (r: Result<BorrowId, ()>)
        ensures
            r == match *self {
                GValue::Borrow(BorrowContent::InactivatedMut(bid)) => Ok::<BorrowId, ()>(bid),
                _ => Err(()),
            },
    {
        match self {
            GValue::Borrow(b) => match b {
                BorrowContent::InactivatedMut(bid) => Ok(*bid),
                _ => Err(()),
            },
            _ => Err(()),
        }
    }
}

/// A value with its type.
#[derive(Debug)]
pub struct GTypedValue<Ty, Val> {
    pub ty: Ty,
    pub value: Val,
}

impl<Ty, Val> GTypedValue<Ty, Val> {
    pub fn new(ty: Ty, value: Val) -> (r: Self)
        ensures
            r.ty == ty,
            r.value == value,
    {
        GTypedValue { ty, value }
    }
}

impl<Vid: Copy, Sv> GTypedValue<Ty, GValue<Vid, Sv>> {
    /// The boolean that the value is, if it is a constant boolean.
    pub fn as_concrete_bool(&self) -> (r: Option<bool>)
        ensures
            r == match self.value {
                GValue::Concrete(ConstantValue::Bool(v)) => Some(v),
                _ => None,
            },
    {
        match &self.value {
            GValue::Concrete(v) => match v {
                ConstantValue::Bool(v) => Some(*v),
                _ => None,
            },
            _ => None,
        }
    }

    /// The scalar that the value is, if it is a constant scalar.
    pub fn as_concrete_scalar(&self) -> (r: Option<ScalarValue>)
        ensures
            r == match self.value {
                GValue::Concrete(ConstantValue::Scalar(v)) => Some(v),
                _ => None,
            },
    {
        match &self.value {
            GValue::Concrete(v) => match v {
                ConstantValue::Scalar(v) => Some(*v),
                _ => None,
            },
            _ => None,
        }
    }

    /// No value, of the given type.
    pub fn mk_bottom(ty: Ty) -> (r: Self)
        ensures
            r.ty == ty,
            r.value is Bottom,
    {
        GTypedValue::new(ty, GValue::Bottom)
    }

    /// The unit value: the empty tuple of the unit type.
    pub fn mk_unit() -> (r: Self)
        ensures
            r.ty == Ty::Unit,
            r.value is Tuple,
            r.value->Tuple_0@.len() == 0,
    {
        GTypedValue::new(Ty::mk_unit(), GValue::mk_unit())
    }
}

impl ConstantValue {
    /// The type of the constant.
    pub open spec fn ty(self) -> Ty {
        match self {
            ConstantValue::Scalar(v) => Ty::Integer(v.ty()),
            ConstantValue::Bool(_) => Ty::Bool,
            ConstantValue::Char(_) => Ty::Char,
            ConstantValue::String(_) => Ty::Str,
        }
    }

    /// The constant as a typed value.
    pub fn to_value<Vid: Copy, Sv>(&self) -> (r: GTypedValue<Ty, GValue<Vid, Sv>>)
        ensures
            r.ty == self.ty(),
            r.value == GValue::<Vid, Sv>::Concrete(*self),
    {
        let ty = match self {
            ConstantValue::Scalar(v) => Ty::Integer(v.get_integer_ty()),
            ConstantValue::Bool(_) => Ty::Bool,
            ConstantValue::Char(_) => Ty::Char,
            ConstantValue::String(_) => Ty::Str,
        };
        GTypedValue::new(ty, GValue::Concrete(self.duplicate()))
    }
}

/// Whether `part` is a text that `ctx` may give for the item, between `open` and `close`.
pub open spec fn part_shown<Vid, C: Formatter<Vid>>(
    ctx: &C,
    item: Vid,
    open: Seq<char>,
    close: Seq<char>,
    part: Seq<char>,
) -> bool {
    exists|t: Seq<char>| #[trigger] shows(ctx, item, t) && part == open + t + close
}

/// Whether `parts` are texts that `ctx` may give for the items, each between `open`
/// and `close`.
pub open spec fn all_shown<Vid, C: Formatter<Vid>>(
    ctx: &C,
    items: Seq<Vid>,
    open: Seq<char>,
    close: Seq<char>,
    parts: Seq<Seq<char>>,
) -> bool {
    &&& parts.len() == items.len()
    &&& forall|i: int|
        0 <= i < items.len() ==> #[trigger] part_shown(ctx, items[i], open, close, parts[i])
}

/// Prints each item with `ctx`, between `open` and `close`.
pub fn format_all<Vid: Copy, C: Formatter<Vid>>(
    ctx: &C,
    items: &Vec<Vid>,
    open: &str,
    close: &str,
) -> (parts: Vec<String>)
    ensures
        all_shown(ctx, items@, open@, close@, texts(parts@)),
{
    let mut parts: Vec<String> = Vec::new();
    let mut i: usize = 0;
    while i < items.len()
        invariant
            i <= items@.len(),
            parts@.len() == i,
            forall|k: int|
                0 <= k < i ==> #[trigger] part_shown(ctx, items@[k], open@, close@, parts@[k]@),
        decreases items@.len() - i,
    {
        let t = ctx.format_object(items[i]);
        let mut part = String::from_str(open);
        part.append(t.as_str());
        part.append(close);
        proof {
            assert(shows(ctx, items@[i as int], t@));
        }
        parts.push(part);
        i = i + 1;
    }
    proof {
        assert forall|k: int| 0 <= k < items@.len() implies #[trigger] part_shown(
            ctx,
            items@[k],
            open@,
            close@,
            texts(parts@)[k],
        ) by {
            assert(part_shown(ctx, items@[k], open@, close@, parts@[k]@));
        }
    }
    parts
}

impl<Vid: Copy> GAdtValue<Vid> {
    /// Whether `s` is a text of the type of the value, with the variant for a value
    /// of an enumeration.
    pub open spec fn ident_shown<C: Formatter<TypeDefId> + Formatter<(TypeDefId, VariantId)>>(
        self,
        ctx: &C,
        s: Seq<char>,
    ) -> bool {
        match self.variant_id {
            Some(variant) => shows(ctx, (self.def_id, variant), s),
            None => shows(ctx, self.def_id, s),
        }
    }

    /// Whether `s` is a text of the value as `ctx` prints its parts.
    pub open spec fn shown<
        C: Formatter<Vid> + Formatter<TypeDefId> + Formatter<(TypeDefId, VariantId)>,
    >(self, ctx: &C, s: Seq<char>) -> bool {
        exists|ident: Seq<char>, fields: Seq<Seq<char>>|
            {
                &&& #[trigger] self.ident_shown(ctx, ident)
                &&& #[trigger] all_shown(ctx, self.field_values@, "("@, ")"@, fields)
                &&& s == if self.field_values@.len() > 0 {
                    ident + " "@ + joined(fields, " "@)
                } else {
                    ident
                }
            }
    }

    /// The value as text: the type, with the variant for a value of an enumeration,
    /// then the fields, each in round brackets, with blanks between.
    pub fn fmt_with_ctx<
        C: Formatter<Vid> + Formatter<TypeDefId> + Formatter<(TypeDefId, VariantId)>,
    >(&self, ctx: &C) -> (s: String)
        ensures
            self.shown(ctx, s@),
    {
        let ident = match &self.variant_id {
            Some(variant) => ctx.format_object((self.def_id, *variant)),
            None => ctx.format_object(self.def_id),
        };
        proof {
            match self.variant_id {
                Some(variant) => {
                    assert(shows(ctx, (self.def_id, variant), ident@));
                },
                None => {
                    assert(shows(ctx, self.def_id, ident@));
                },
            }
            assert(self.ident_shown(ctx, ident@));
        }
        let fields = format_all(ctx, &self.field_values, "(", ")");
        assert(all_shown(ctx, self.field_values@, "("@, ")"@, texts(fields@)));
        if self.field_values.len() > 0 {
            let mut s = ident.clone();
            s.append(" ");
            s.append(join(&fields, " ").as_str());
            s
        } else {
            ident
        }
    }
}

impl<Vid: Copy, Sv> GTypedValue<Ty, GValue<Vid, Sv>> {
    /// Whether `s` is a text of the value as `ctx` prints its parts.
    pub open spec fn shown<
        'a,
        C: Formatter<TypeVarId> + Formatter<Vid> + Formatter<&'a Sv> + Formatter<
            BorrowIdFormatWrapper,
        > + Formatter<TypeDefId> + Formatter<(TypeDefId, VariantId)>,
    >(&'a self, ctx: &C, s: Seq<char>) -> bool {
        match &self.value {
            GValue::Adt(v) => v.shown(ctx, s),
            GValue::Symbolic(sv) => exists|a: Seq<char>, t: Seq<char>|
                #[trigger] shows(ctx, sv, a) && #[trigger] self.ty.shown(ctx, t) && s == a + " : "@
                    + t,
            GValue::Concrete(v) => s == v.text(),
            GValue::Tuple(v) => exists|parts: Seq<Seq<char>>|
                #[trigger] all_shown(ctx, v@, ""@, ""@, parts) && s == "("@ + joined(parts, ", "@)
                    + ")"@,
            GValue::Borrow(v) => v.shown(ctx, s),
            GValue::Loan(v) => v.shown(ctx, s),
            GValue::Assumed(AssumedValue::Box(v)) => exists|a: Seq<char>|
                #[trigger] shows(ctx, *v, a) && s == "@Box("@ + a + ")"@,
            GValue::Bottom => exists|t: Seq<char>|
                #[trigger] self.ty.shown(ctx, t) && s == "⊥ : "@ + t,
        }
    }

    /// The value as text.
    pub fn fmt_with_ctx<
        'a,
        C: Formatter<TypeVarId> + Formatter<Vid> + Formatter<&'a Sv> + Formatter<
            BorrowIdFormatWrapper,
        > + Formatter<TypeDefId> + Formatter<(TypeDefId, VariantId)>,
    >(&'a self, ctx: &C) -> (s: String)
        ensures
            self.shown(ctx, s@),
    {
        match &self.value {
            GValue::Adt(v) => v.fmt_with_ctx(ctx),
            GValue::Symbolic(sv) => {
                let a = ctx.format_object(sv);
                let t = self.ty.fmt_with_ctx(ctx);
                let mut s = a.clone();
                s.append(" : ");
                s.append(t.as_str());
                proof {
                    assert(shows(ctx, sv, a@));
                }
                s
            },
            GValue::Concrete(v) => v.to_string(),
            GValue::Tuple(v) => {
                let values = format_all(ctx, v, "", "");
                let mut s = String::from_str("(");
                s.append(join(&values, ", ").as_str());
                s.append(")");
                s
            },
            GValue::Borrow(v) => v.fmt_with_ctx(ctx),
            GValue::Loan(v) => v.fmt_with_ctx(ctx),
            GValue::Assumed(v) => match v {
                AssumedValue::Box(v) => {
                    let a = ctx.format_object(*v);
                    let mut s = String::from_str("@Box(");
                    s.append(a.as_str());
                    s.append(")");
                    proof {
                        assert(shows(ctx, *v, a@));
                    }
                    s
                },
            },
            GValue::Bottom => {
                let t = self.ty.fmt_with_ctx(ctx);
                let mut s = String::from_str("⊥ : ");
                s.append(t.as_str());
                s
            },
        }
    }
}

} // verus!
