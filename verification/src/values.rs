//! Primitive values: integer kinds, scalars, literals and constants.

use crate::strings::{char_to_string, signed_to_string, unsigned_to_string};
use vstd::prelude::*;
use vstd::string::StringExecFns;

verus! {

/// The twelve machine integer kinds.
#[derive(Clone, Copy, Debug, PartialEq, Eq, Structural, Hash)]
pub enum IntegerTy {
    Isize,
    I8,
    I16,
    I32,
    I64,
    I128,
    Usize,
    U8,
    U16,
    U32,
    U64,
    U128,
}

impl IntegerTy {
    /// Whether the kind is one of the six signed ones.
    pub open spec fn signed(self) -> bool {
        self is Isize || self is I8 || self is I16 || self is I32 || self is I64 || self is I128
    }

    /// The least value of the kind.
    pub open spec fn min_value(self) -> int {
        match self {
            IntegerTy::Isize => isize::MIN as int,
            IntegerTy::I8 => i8::MIN as int,
            IntegerTy::I16 => i16::MIN as int,
            IntegerTy::I32 => i32::MIN as int,
            IntegerTy::I64 => i64::MIN as int,
            IntegerTy::I128 => i128::MIN as int,
            _ => 0,
        }
    }

    /// The greatest value of the kind.
    pub open spec fn max_value(self) -> int {
        match self {
            IntegerTy::Isize => isize::MAX as int,
            IntegerTy::I8 => i8::MAX as int,
            IntegerTy::I16 => i16::MAX as int,
            IntegerTy::I32 => i32::MAX as int,
            IntegerTy::I64 => i64::MAX as int,
            IntegerTy::I128 => i128::MAX as int,
            IntegerTy::Usize => usize::MAX as int,
            IntegerTy::U8 => u8::MAX as int,
            IntegerTy::U16 => u16::MAX as int,
            IntegerTy::U32 => u32::MAX as int,
            IntegerTy::U64 => u64::MAX as int,
            IntegerTy::U128 => u128::MAX as int,
        }
    }

    /// Whether `v` is a value of the kind.
    pub open spec fn holds(self, v: int) -> bool {
        self.min_value() <= v <= self.max_value()
    }

    /// The value of the kind that has the low bits of `v`.
    pub open spec fn wrap(self, v: int) -> int {
        match self {
            IntegerTy::Isize => (v as isize) as int,
            IntegerTy::I8 => (v as i8) as int,
            IntegerTy::I16 => (v as i16) as int,
            IntegerTy::I32 => (v as i32) as int,
            IntegerTy::I64 => (v as i64) as int,
            IntegerTy::I128 => (v as i128) as int,
            IntegerTy::Usize => (v as usize) as int,
            IntegerTy::U8 => (v as u8) as int,
            IntegerTy::U16 => (v as u16) as int,
            IntegerTy::U32 => (v as u32) as int,
            IntegerTy::U64 => (v as u64) as int,
            IntegerTy::U128 => (v as u128) as int,
        }
    }
}

/// A machine integer together with its kind.
#[derive(Clone, Copy, Debug, PartialEq, Eq, Structural, Hash)]
pub enum ScalarValue {
    Isize(isize),
    I8(i8),
    I16(i16),
    I32(i32),
    I64(i64),
    I128(i128),
    Usize(usize),
    U8(u8),
    U16(u16),
    U32(u32),
    U64(u64),
    U128(u128),
}

impl ScalarValue {
    /// The kind of the scalar.
    pub open spec fn ty(self) -> IntegerTy {
        match self {
            ScalarValue::Isize(_) => IntegerTy::Isize,
            ScalarValue::I8(_) => IntegerTy::I8,
            ScalarValue::I16(_) => IntegerTy::I16,
            ScalarValue::I32(_) => IntegerTy::I32,
            ScalarValue::I64(_) => IntegerTy::I64,
            ScalarValue::I128(_) => IntegerTy::I128,
            ScalarValue::Usize(_) => IntegerTy::Usize,
            ScalarValue::U8(_) => IntegerTy::U8,
            ScalarValue::U16(_) => IntegerTy::U16,
            ScalarValue::U32(_) => IntegerTy::U32,
            ScalarValue::U64(_) => IntegerTy::U64,
            ScalarValue::U128(_) => IntegerTy::U128,
        }
    }

    /// The integer that the scalar holds.
    pub open spec fn value(self) -> int {
        match self {
            ScalarValue::Isize(v) => v as int,
            ScalarValue::I8(v) => v as int,
            ScalarValue::I16(v) => v as int,
            ScalarValue::I32(v) => v as int,
            ScalarValue::I64(v) => v as int,
            ScalarValue::I128(v) => v as int,
            ScalarValue::Usize(v) => v as int,
            ScalarValue::U8(v) => v as int,
            ScalarValue::U16(v) => v as int,
            ScalarValue::U32(v) => v as int,
            ScalarValue::U64(v) => v as int,
            ScalarValue::U128(v) => v as int,
        }
    }

    pub fn get_integer_ty(&self) -> (ty: IntegerTy)
        ensures
            ty == self.ty(),
    {
        match self {
            ScalarValue::Isize(_) => IntegerTy::Isize,
            ScalarValue::I8(_) => IntegerTy::I8,
            ScalarValue::I16(_) => IntegerTy::I16,
            ScalarValue::I32(_) => IntegerTy::I32,
            ScalarValue::I64(_) => IntegerTy::I64,
            ScalarValue::I128(_) => IntegerTy::I128,
            ScalarValue::Usize(_) => IntegerTy::Usize,
            ScalarValue::U8(_) => IntegerTy::U8,
            ScalarValue::U16(_) => IntegerTy::U16,
            ScalarValue::U32(_) => IntegerTy::U32,
            ScalarValue::U64(_) => IntegerTy::U64,
            ScalarValue::U128(_) => IntegerTy::U128,
        }
    }

    pub fn is_int(&self) -> (b: bool)
        ensures
            b == self.ty().signed(),
    {
        match self {
            ScalarValue::Isize(_)
            | ScalarValue::I8(_)
            | ScalarValue::I16(_)
            | ScalarValue::I32(_)
            | ScalarValue::I64(_)
            | ScalarValue::I128(_) => true,
            _ => false,
        }
    }

    pub fn is_uint(&self) -> (b: bool)
        ensures
            b == !self.ty().signed(),
    {
        match self {
            ScalarValue::Usize(_)
            | ScalarValue::U8(_)
            | ScalarValue::U16(_)
            | ScalarValue::U32(_)
            | ScalarValue::U64(_)
            | ScalarValue::U128(_) => true,
            _ => false,
        }
    }

    /// The value of an unsigned scalar, widened; a signed scalar is refused.
    pub fn as_uint(&self) -> (r: Result<u128, ()>)
        ensures
            r.is_ok() == !self.ty().signed(),
            r.is_ok() ==> r.unwrap() == self.value(),
    {
        match self {
            ScalarValue::Usize(v) => Ok(*v as u128),
            ScalarValue::U8(v) => Ok(*v as u128),
            ScalarValue::U16(v) => Ok(*v as u128),
            ScalarValue::U32(v) => Ok(*v as u128),
            ScalarValue::U64(v) => Ok(*v as u128),
            ScalarValue::U128(v) => Ok(*v),
            _ => Err(()),
        }
    }

    /// Whether `v` fits the unsigned kind `ty`; no value fits a signed kind here.
    pub fn uint_is_in_bounds(ty: IntegerTy, v: u128) -> (b: bool)
        ensures
            b == (!ty.signed() && ty.holds(v as int)),
    {
        match ty {
            IntegerTy::Usize => v <= (usize::MAX as u128),
            IntegerTy::U8 => v <= (u8::MAX as u128),
            IntegerTy::U16 => v <= (u16::MAX as u128),
            IntegerTy::U32 => v <= (u32::MAX as u128),
            IntegerTy::U64 => v <= (u64::MAX as u128),
            IntegerTy::U128 => true,
            _ => false,
        }
    }

    /// The scalar of the unsigned kind `ty` that has the low bits of `v`.
    pub fn from_unchecked_uint(ty: IntegerTy, v: u128) -> (s: ScalarValue)
        requires
            !ty.signed(),
        ensures
            s.ty() == ty,
            s.value() == ty.wrap(v as int),
            ty.holds(v as int) ==> s.value() == v,
    {
        match ty {
            IntegerTy::Usize => ScalarValue::Usize(#[verifier::truncate] (v as usize)),
            IntegerTy::U8 => ScalarValue::U8(#[verifier::truncate] (v as u8)),
            IntegerTy::U16 => ScalarValue::U16(#[verifier::truncate] (v as u16)),
            IntegerTy::U32 => ScalarValue::U32(#[verifier::truncate] (v as u32)),
            IntegerTy::U64 => ScalarValue::U64(#[verifier::truncate] (v as u64)),
            _ => ScalarValue::U128(v),
        }
    }

    /// The scalar of kind `ty` with value `v`, where `ty` is unsigned and `v` fits it.
    pub fn from_uint(ty: IntegerTy, v: u128) -> (r: Result<ScalarValue, ()>)
        ensures
            r.is_ok() == (!ty.signed() && ty.holds(v as int)),
            r.is_ok() ==> r.unwrap().ty() == ty && r.unwrap().value() == v,
    {
        if !ScalarValue::uint_is_in_bounds(ty, v) {
            Err(())
        } else {
            Ok(ScalarValue::from_unchecked_uint(ty, v))
        }
    }

    /// The value of a signed scalar, widened; an unsigned scalar is refused.
    pub fn as_int(&self) -> (r: Result<i128, ()>)
        ensures
            r.is_ok() == self.ty().signed(),
            r.is_ok() ==> r.unwrap() == self.value(),
    {
        match self {
            ScalarValue::Isize(v) => Ok(*v as i128),
            ScalarValue::I8(v) => Ok(*v as i128),
            ScalarValue::I16(v) => Ok(*v as i128),
            ScalarValue::I32(v) => Ok(*v as i128),
            ScalarValue::I64(v) => Ok(*v as i128),
            ScalarValue::I128(v) => Ok(*v),
            _ => Err(()),
        }
    }

    /// Whether `v` fits the signed kind `ty`; no value fits an unsigned kind here.
    pub fn int_is_in_bounds(ty: IntegerTy, v: i128) -> (b: bool)
        ensures
            b == (ty.signed() && ty.holds(v as int)),
    {
        match ty {
            IntegerTy::Isize => v >= (isize::MIN as i128) && v <= (isize::MAX as i128),
            IntegerTy::I8 => v >= (i8::MIN as i128) && v <= (i8::MAX as i128),
            IntegerTy::I16 => v >= (i16::MIN as i128) && v <= (i16::MAX as i128),
            IntegerTy::I32 => v >= (i32::MIN as i128) && v <= (i32::MAX as i128),
            IntegerTy::I64 => v >= (i64::MIN as i128) && v <= (i64::MAX as i128),
            IntegerTy::I128 => true,
            _ => false,
        }
    }

    /// The scalar of the signed kind `ty` that has the low bits of `v`.
    pub fn from_unchecked_int(ty: IntegerTy, v: i128) -> (s: ScalarValue)
        requires
            ty.signed(),
        ensures
            s.ty() == ty,
            s.value() == ty.wrap(v as int),
            ty.holds(v as int) ==> s.value() == v,
    {
        match ty {
            IntegerTy::Isize => ScalarValue::Isize(#[verifier::truncate] (v as isize)),
            IntegerTy::I8 => ScalarValue::I8(#[verifier::truncate] (v as i8)),
            IntegerTy::I16 => ScalarValue::I16(#[verifier::truncate] (v as i16)),
            IntegerTy::I32 => ScalarValue::I32(#[verifier::truncate] (v as i32)),
            IntegerTy::I64 => ScalarValue::I64(#[verifier::truncate] (v as i64)),
            _ => ScalarValue::I128(v),
        }
    }

    /// The scalar of kind `ty` with value `v`, where `ty` is signed and `v` fits it.
    pub fn from_int(ty: IntegerTy, v: i128) -> (r: Result<ScalarValue, ()>)
        ensures
            r.is_ok() == (ty.signed() && ty.holds(v as int)),
            r.is_ok() ==> r.unwrap().ty() == ty && r.unwrap().value() == v,
    {
        if !ScalarValue::int_is_in_bounds(ty, v) {
            Err(())
        } else {
            Ok(ScalarValue::from_unchecked_int(ty, v))
        }
    }
}

/// A scalar is known by its kind and its value.
pub proof fn scalar_known_by_kind_and_value(a: ScalarValue, b: ScalarValue)
    requires
        a.ty() == b.ty(),
        a.value() == b.value(),
    ensures
        a == b,
{
}

/// The two kinds of floating-point numbers.
#[derive(Clone, Copy, Debug, PartialEq, Eq, Structural, Hash)]
pub enum FloatTy {
    Single,
    Double,
}

impl FloatTy {
    /// The name of the kind.
    pub open spec fn name(self) -> Seq<char> {
        match self {
            FloatTy::Single => "f32"@,
            FloatTy::Double => "f64"@,
        }
    }

    /// The name of the kind.
    pub fn to_str(&self) -> (s: &'static str)
        ensures
            s@ == self.name(),
    {
        match self {
            FloatTy::Single => "f32",
            FloatTy::Double => "f64",
        }
    }
}

/// A floating-point number, kept as the text that denotes it.
#[derive(Debug)]
pub struct FloatValue {
    pub value: String,
    pub ty: FloatTy,
}

/// A primitive value.
#[derive(Debug)]
pub enum Literal {
    Scalar(ScalarValue),
    Float(FloatValue),
    Bool(bool),
    Char(char),
    ByteStr(Vec<u8>),
    Str(String),
}

/// A constant.
#[derive(Debug)]
pub enum ConstantValue {
    Scalar(ScalarValue),
    Bool(bool),
    Char(char),
    String(String),
}

impl IntegerTy {
    /// The name of the kind.
    pub open spec fn name(self) -> Seq<char> {
        match self {
            IntegerTy::Isize => "isize"@,
            IntegerTy::I8 => "i8"@,
            IntegerTy::I16 => "i16"@,
            IntegerTy::I32 => "i32"@,
            IntegerTy::I64 => "i64"@,
            IntegerTy::I128 => "i128"@,
            IntegerTy::Usize => "usize"@,
            IntegerTy::U8 => "u8"@,
            IntegerTy::U16 => "u16"@,
            IntegerTy::U32 => "u32"@,
            IntegerTy::U64 => "u64"@,
            IntegerTy::U128 => "u128"@,
        }
    }

    /// The name of the kind.
    pub fn to_str(&self) -> (s: &'static str)
        ensures
            s@ == self.name(),
    {
        match self {
            IntegerTy::Isize => "isize",
            IntegerTy::I8 => "i8",
            IntegerTy::I16 => "i16",
            IntegerTy::I32 => "i32",
            IntegerTy::I64 => "i64",
            IntegerTy::I128 => "i128",
            IntegerTy::Usize => "usize",
            IntegerTy::U8 => "u8",
            IntegerTy::U16 => "u16",
            IntegerTy::U32 => "u32",
            IntegerTy::U64 => "u64",
            IntegerTy::U128 => "u128",
        }
    }
}

impl ScalarValue {
    /// The text of the scalar: its value in decimal, then ` : `, then the name of its kind.
    pub open spec fn text(self) -> Seq<char> {
        crate::strings::signed_decimal(self.value()) + " : "@ + self.ty().name()
    }

    /// The scalar as text: its value in decimal, then ` : `, then the name of its kind.
    pub fn to_string(&self) -> (s: String)
        ensures
            s@ == self.text(),
    {
        let mut s = match self.as_int() {
            Ok(v) => signed_to_string(v),
            Err(_) => match self.as_uint() {
                Ok(v) => unsigned_to_string(v),
                Err(_) => String::new(),
            },
        };
        s.append(" : ");
        s.append(self.get_integer_ty().to_str());
        s
    }
}

impl ConstantValue {
    /// The text of the constant.
    pub open spec fn text(self) -> Seq<char> {
        match self {
            ConstantValue::Scalar(v) => v.text(),
            ConstantValue::Bool(v) => if v {
                "true"@
            } else {
                "false"@
            },
            ConstantValue::Char(v) => seq![v],
            ConstantValue::String(v) => v@,
        }
    }

    /// The constant as text: a scalar with its kind, a boolean as `true` or `false`,
    /// a character or a string as it is.
    pub fn to_string(&self) -> (s: String)
        ensures
            s@ == self.text(),
    {
        match self {
            ConstantValue::Scalar(v) => v.to_string(),
            ConstantValue::Bool(v) => if *v {
                String::from_str("true")
            } else {
                String::from_str("false")
            },
            ConstantValue::Char(v) => char_to_string(*v),
            ConstantValue::String(v) => v.clone(),
        }
    }

    /// A second value equal to this one.
    pub fn duplicate(&self) -> (r: ConstantValue)
        ensures
            r == *self,
    {
        match self {
            ConstantValue::Scalar(v) => ConstantValue::Scalar(*v),
            ConstantValue::Bool(v) => ConstantValue::Bool(*v),
            ConstantValue::Char(v) => ConstantValue::Char(*v),
            ConstantValue::String(v) => ConstantValue::String(v.clone()),
        }
    }
}

} // verus!
