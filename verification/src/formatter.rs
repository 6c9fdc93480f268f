//! Turning identifiers, types, bodies and declarations into text.

use crate::strings::{concat2, concat3, decimal, index_to_string, join, joined, texts};
use crate::gast::{GExprBody, GFunDecl, GGlobalDecl, GenericParams, Var};
use crate::types::{RefKind, Ty, TypeDefId, TypeVarId};
use crate::ullbc::{Call, FnOperand, GenericArgs, Operand, VarId, VariantId};
use vstd::prelude::*;
use vstd::string::StringExecFns;

verus! {

/// The index of a borrow or of a loan.
#[derive(Clone, Copy, Debug, PartialEq, Eq, Structural, Hash)]
pub struct BorrowId {
    pub index: usize,
}

/// The index of a value.
#[derive(Clone, Copy, Debug, PartialEq, Eq, Structural, Hash)]
pub struct ValueId {
    pub index: usize,
}

/// The index of a symbolic value.
#[derive(Clone, Copy, Debug, PartialEq, Eq, Structural, Hash)]
pub struct SymbolicId {
    pub index: usize,
}

/// The index of a field.
#[derive(Clone, Copy, Debug, PartialEq, Eq, Structural, Hash)]
pub struct FieldId {
    pub index: usize,
}

/// A borrow identifier together with the kind of borrow that it stands for,
/// so that each kind can be printed in its own way.
#[derive(Clone, Copy, Debug, PartialEq, Eq, Structural)]
pub enum BorrowIdFormatWrapper {
    Shared(BorrowId),
    Mut(BorrowId),
    InactivatedMut(BorrowId),
}

impl BorrowIdFormatWrapper {
    /// The text of the borrow.
    pub open spec fn text(self) -> Seq<char> {
        match self {
            BorrowIdFormatWrapper::Shared(b) => "⌊shared@"@ + decimal(b.index as nat) + "⌋"@,
            BorrowIdFormatWrapper::Mut(b) => "&mut@"@ + decimal(b.index as nat),
            BorrowIdFormatWrapper::InactivatedMut(b) => "⌊inactivated_mut@"@ + decimal(
                b.index as nat,
            ) + "⌋"@,
        }
    }

    /// The borrow as text.
    pub fn to_string(&self) -> (s: String)
        ensures
            s@ == self.text(),
    {
        match self {
            BorrowIdFormatWrapper::Shared(b) => concat3(
                "⌊shared@",
                index_to_string(b.index).as_str(),
                "⌋",
            ),
            BorrowIdFormatWrapper::Mut(b) => concat2("&mut@", index_to_string(b.index).as_str()),
            BorrowIdFormatWrapper::InactivatedMut(b) => concat3(
                "⌊inactivated_mut@",
                index_to_string(b.index).as_str(),
                "⌋",
            ),
        }
    }
}

/// `var@` and the index of the local.
pub fn var_id_to_pretty_string(id: VarId) -> (s: String)
    ensures
        s@ == "var@"@ + decimal(id.index as nat),
{
    concat2("var@", index_to_string(id.index).as_str())
}

/// `val@` and the index of the value.
pub fn value_id_to_pretty_string(id: ValueId) -> (s: String)
    ensures
        s@ == "val@"@ + decimal(id.index as nat),
{
    concat2("val@", index_to_string(id.index).as_str())
}

/// `symb@` and the index of the symbolic value.
pub fn symbolic_id_to_pretty_string(id: SymbolicId) -> (s: String)
    ensures
        s@ == "symb@"@ + decimal(id.index as nat),
{
    concat2("symb@", index_to_string(id.index).as_str())
}

/// `@T` and the index of the type variable.
pub fn type_var_id_to_pretty_string(id: TypeVarId) -> (s: String)
    ensures
        s@ == "@T"@ + decimal(id.index as nat),
{
    concat2("@T", index_to_string(id.index).as_str())
}

/// `@Adt` and the index of the type declaration.
pub fn type_def_id_to_pretty_string(id: TypeDefId) -> (s: String)
    ensures
        s@ == "@Adt"@ + decimal(id.index as nat),
{
    concat2("@Adt", index_to_string(id.index).as_str())
}

/// Something that turns objects of type `T` into text.
pub trait Formatter<T> {
    fn format_object(&self, x: T) -> String;
}

/// Whether `s` is a text that `ctx` may give for `x`.
pub open spec fn shows<T, C: Formatter<T>>(ctx: &C, x: T, s: Seq<char>) -> bool {
    exists|t: String| #[trigger] call_ensures(C::format_object, (ctx, x), t) && t@ == s
}

/// A formatter that knows no names: it prints every identifier by its index.
#[derive(Clone, Copy, Debug)]
pub struct DummyFormatter {}

impl Formatter<VarId> for DummyFormatter {
    fn format_object(&self, x: VarId) -> (s: String)
        ensures
            s@ == "var@"@ + decimal(x.index as nat),
    {
        var_id_to_pretty_string(x)
    }
}

impl Formatter<TypeVarId> for DummyFormatter {
    fn format_object(&self, x: TypeVarId) -> (s: String)
        ensures
            s@ == "@T"@ + decimal(x.index as nat),
    {
        type_var_id_to_pretty_string(x)
    }
}

impl Formatter<ValueId> for DummyFormatter {
    fn format_object(&self, x: ValueId) -> (s: String)
        ensures
            s@ == "val@"@ + decimal(x.index as nat),
    {
        value_id_to_pretty_string(x)
    }
}

impl Formatter<SymbolicId> for DummyFormatter {
    fn format_object(&self, x: SymbolicId) -> (s: String)
        ensures
            s@ == "symb@"@ + decimal(x.index as nat),
    {
        symbolic_id_to_pretty_string(x)
    }
}

impl Formatter<BorrowIdFormatWrapper> for DummyFormatter {
    fn format_object(&self, x: BorrowIdFormatWrapper) -> (s: String)
        ensures
            s@ == x.text(),
    {
        x.to_string()
    }
}

impl Formatter<TypeDefId> for DummyFormatter {
    fn format_object(&self, x: TypeDefId) -> (s: String)
        ensures
            s@ == "@Adt"@ + decimal(x.index as nat),
    {
        type_def_id_to_pretty_string(x)
    }
}

impl Formatter<(TypeDefId, VariantId)> for DummyFormatter {
    fn format_object(&self, x: (TypeDefId, VariantId)) -> (s: String)
        ensures
            s@ == "@Adt"@ + decimal(x.0.index as nat) + "::@Variant"@ + decimal(x.1.index as nat),
    {
        let mut s = type_def_id_to_pretty_string(x.0);
        s.append("::@Variant");
        s.append(index_to_string(x.1.index).as_str());
        s
    }
}

impl Formatter<(TypeDefId, Option<VariantId>, FieldId)> for DummyFormatter {
    fn format_object(&self, x: (TypeDefId, Option<VariantId>, FieldId)) -> (s: String)
        ensures
            s@ == "@field"@ + decimal(x.2.index as nat),
    {
        concat2("@field", index_to_string(x.2.index).as_str())
    }
}

impl VarId {
    /// `@` and the index of the local.
    pub fn to_pretty_string(&self) -> (s: String)
        ensures
            s@ == "@"@ + decimal(self.index as nat),
    {
        concat2("@", index_to_string(self.index).as_str())
    }
}

impl crate::ullbc::FunDeclId {
    /// `@Fun` and the index of the declaration.
    pub fn to_pretty_string(&self) -> (s: String)
        ensures
            s@ == "@Fun"@ + decimal(self.index as nat),
    {
        concat2("@Fun", index_to_string(self.index).as_str())
    }
}

impl Var {
    /// The text of the local: its name, where it has one, and `@` with its index.
    pub open spec fn text(self) -> Seq<char> {
        match self.name {
            Some(name) => name@ + "@"@ + decimal(self.index.index as nat),
            None => "@"@ + decimal(self.index.index as nat),
        }
    }

    /// The local as text. The index stands behind the name because two locals of
    /// different scopes may have the same name.
    pub fn to_string(&self) -> (s: String)
        ensures
            s@ == self.text(),
    {
        let id = self.index.to_pretty_string();
        match &self.name {
            Some(name) => concat2(name.as_str(), id.as_str()),
            None => id,
        }
    }
}

impl Ty {
    /// Whether `s` is a text of the type as `ctx` prints the identifiers in it.
    pub open spec fn shown<C: Formatter<TypeDefId> + Formatter<TypeVarId>>(
        self,
        ctx: &C,
        s: Seq<char>,
    ) -> bool {
        match self {
            Ty::Unit => s == "()"@,
            Ty::Bool => s == "bool"@,
            Ty::Char => s == "char"@,
            Ty::Never => s == "!"@,
            Ty::Str => s == "str"@,
            Ty::Integer(ty) => s == ty.name(),
            Ty::Float(ty) => s == ty.name(),
            Ty::Adt(id) => shows(ctx, id, s),
            Ty::TypeVar(id) => shows(ctx, id, s),
            Ty::Tuple(n) => s == "(_; "@ + decimal(n as nat) + ")"@,
            Ty::Array(n) => s == "[_; "@ + decimal(n as nat) + "]"@,
            Ty::Slice => s == "[_]"@,
            Ty::Ref(RefKind::Mut, _) => s == "&mut _"@,
            Ty::Ref(RefKind::Shared, _) => s == "&_"@,
            Ty::RawPtr(RefKind::Mut, _) => s == "*mut _"@,
            Ty::RawPtr(RefKind::Shared, _) => s == "*const _"@,
            Ty::Boxed => s == "Box<_>"@,
            Ty::Other => s == "_"@,
        }
    }

    /// The type as text: a built-in type by its name, a declared type and a type
    /// variable as `ctx` prints them.
    pub fn fmt_with_ctx<C: Formatter<TypeDefId> + Formatter<TypeVarId>>(&self, ctx: &C) -> (s:
        String)
        ensures
            self.shown(ctx, s@),
    {
        match self {
            Ty::Unit => String::from_str("()"),
            Ty::Bool => String::from_str("bool"),
            Ty::Char => String::from_str("char"),
            Ty::Never => String::from_str("!"),
            Ty::Str => String::from_str("str"),
            Ty::Integer(ty) => String::from_str(ty.to_str()),
            Ty::Float(ty) => String::from_str(ty.to_str()),
            Ty::Adt(id) => ctx.format_object(*id),
            Ty::TypeVar(id) => ctx.format_object(*id),
            Ty::Tuple(n) => concat3("(_; ", index_to_string(*n).as_str(), ")"),
            Ty::Array(n) => concat3("[_; ", index_to_string(*n).as_str(), "]"),
            Ty::Slice => String::from_str("[_]"),
            Ty::Ref(RefKind::Mut, _) => String::from_str("&mut _"),
            Ty::Ref(RefKind::Shared, _) => String::from_str("&_"),
            Ty::RawPtr(RefKind::Mut, _) => String::from_str("*mut _"),
            Ty::RawPtr(RefKind::Shared, _) => String::from_str("*const _"),
            Ty::Boxed => String::from_str("Box<_>"),
            Ty::Other => String::from_str("_"),
        }
    }
}

/// What is said of a local behind its declaration.
pub open spec fn local_comment(v: Var, arg_count: int) -> Seq<char> {
    if v.index.index == 0 {
        "// return"@
    } else if v.index.index <= arg_count {
        "// arg #"@ + decimal(v.index.index as nat)
    } else if v.name is Some {
        "// local"@
    } else {
        "// anonymous local"@
    }
}

/// The line that declares a local whose type has the text `ty`.
pub open spec fn local_line(v: Var, ty: Seq<char>, arg_count: int, tab: Seq<char>) -> Seq<char> {
    tab + "let "@ + v.text() + ": "@ + ty + "; "@ + local_comment(v, arg_count) + "\n"@
}

/// The lines that declare the first `n` locals, whose types have the texts given.
pub open spec fn local_lines(
    locals: Seq<Var>,
    types: Seq<Seq<char>>,
    n: int,
    arg_count: int,
    tab: Seq<char>,
) -> Seq<char>
    decreases n,
{
    if n <= 0 {
        seq![]
    } else {
        local_lines(locals, types, n - 1, arg_count, tab) + local_line(
            locals[n - 1],
            types[n - 1],
            arg_count,
            tab,
        )
    }
}

/// The lines do not depend on the types of the locals behind them.
pub proof fn lemma_local_lines_prefix(
    locals: Seq<Var>,
    t1: Seq<Seq<char>>,
    t2: Seq<Seq<char>>,
    n: int,
    arg_count: int,
    tab: Seq<char>,
)
    requires
        forall|i: int| 0 <= i < n ==> t1[i] == t2[i],
    ensures
        local_lines(locals, t1, n, arg_count, tab) == local_lines(locals, t2, n, arg_count, tab),
    decreases n,
{
    if n > 0 {
        lemma_local_lines_prefix(locals, t1, t2, n - 1, arg_count, tab);
    }
}

impl<T> GExprBody<T> {
    /// Whether `s` is a text of the body: a line for each local, an empty line, and
    /// the code, with the types and the code as `ctx` prints them.
    pub open spec fn shown<'a, C: Formatter<TypeDefId> + Formatter<TypeVarId> + Formatter<&'a T>>(
        &'a self,
        tab: Seq<char>,
        ctx: &C,
        s: Seq<char>,
    ) -> bool {
        exists|types: Seq<Seq<char>>, code: Seq<char>|
            {
                &&& types.len() == self.locals@.len()
                &&& forall|i: int|
                    0 <= i < types.len() ==> self.locals@[i].ty.shown(ctx, #[trigger] types[i])
                &&& shows(ctx, &self.body, code)
                &&& s == local_lines(
                    self.locals@,
                    types,
                    self.locals@.len() as int,
                    self.arg_count as int,
                    tab,
                ) + "\n"@ + code
            }
    }

    /// The body as text: every local on a line of its own behind `tab`, with its type
    /// and with a word on what it is, then an empty line, then the code.
    pub fn fmt_with_ctx<'a, C: Formatter<TypeDefId> + Formatter<TypeVarId> + Formatter<&'a T>>(
        &'a self,
        tab: &str,
        ctx: &C,
    ) -> (s: String)
        ensures
            self.shown(tab@, ctx, s@),
    {
        let mut out = String::new();
        let ghost mut types: Seq<Seq<char>> = Seq::empty();
        let mut i: usize = 0;
        while i < self.locals.len()
            invariant
                i <= self.locals@.len(),
                types.len() == i,
                forall|k: int| 0 <= k < i ==> self.locals@[k].ty.shown(ctx, #[trigger] types[k]),
                out@ == local_lines(self.locals@, types, i as int, self.arg_count as int, tab@),
            decreases self.locals@.len() - i,
        {
            let v = &self.locals[i];
            let index = v.index.index;
            let comment = if index == 0 {
                String::from_str("// return")
            } else if index <= self.arg_count {
                concat2("// arg #", index_to_string(index).as_str())
            } else {
                match &v.name {
                    Some(_) => String::from_str("// local"),
                    None => String::from_str("// anonymous local"),
                }
            };
            let ty = v.ty.fmt_with_ctx(ctx);
            let ghost before = out@;
            let ghost old_types = types;
            out.append(tab);
            out.append("let ");
            out.append(v.to_string().as_str());
            out.append(": ");
            out.append(ty.as_str());
            out.append("; ");
            out.append(comment.as_str());
            out.append("\n");
            proof {
                types = types.push(ty@);
                assert(out@ =~= before + local_line(*v, ty@, self.arg_count as int, tab@));
                lemma_local_lines_prefix(
                    self.locals@,
                    old_types,
                    types,
                    i as int,
                    self.arg_count as int,
                    tab@,
                );
            }
            i = i + 1;
        }
        let code = ctx.format_object(&self.body);
        out.append("\n");
        out.append(code.as_str());
        proof {
            assert(shows(ctx, &self.body, code@));
        }
        out
    }
}

impl<T> GGlobalDecl<T> {
    /// Whether `s` is a text of the declaration.
    pub open spec fn shown<'a, C: Formatter<TypeDefId> + Formatter<TypeVarId> + Formatter<&'a T>>(
        &'a self,
        tab: Seq<char>,
        ctx: &C,
        s: Seq<char>,
    ) -> bool {
        match &self.body {
            None => s == tab + "global "@ + self.name@,
            Some(body) => exists|text: Seq<char>|
                #[trigger] body.shown(tab + "    "@, ctx, text) && s == tab + "global "@
                    + self.name@ + " {\n"@ + text + "\n"@ + tab + "}"@,
        }
    }

    /// The declaration as text: `global` and the name, and for a declaration with code
    /// the body in curly brackets, set in by four blanks more.
    pub fn gfmt_with_ctx<'a, C: Formatter<TypeDefId> + Formatter<TypeVarId> + Formatter<&'a T>>(
        &'a self,
        tab: &str,
        ctx: &C,
    ) -> (s: String)
        ensures
            self.shown(tab@, ctx, s@),
    {
        let mut out = String::from_str(tab);
        out.append("global ");
        out.append(self.name.as_str());
        match &self.body {
            None => out,
            Some(body) => {
                let body_tab = concat2(tab, "    ");
                let text = body.fmt_with_ctx(body_tab.as_str(), ctx);
                out.append(" {\n");
                out.append(text.as_str());
                out.append("\n");
                out.append(tab);
                out.append("}");
                out
            },
        }
    }
}

/// The text of an argument: `@` with its index, a colon, and the text of its type.
pub open spec fn argument_text(index: int, ty: Seq<char>) -> Seq<char> {
    "@"@ + decimal(index as nat) + ": "@ + ty
}

/// The texts of the arguments whose types have the texts given. The first argument
/// has the index 1: the index 0 is that of the returned value.
pub open spec fn argument_texts(types: Seq<Seq<char>>) -> Seq<Seq<char>> {
    Seq::new(types.len(), |i: int| argument_text(i + 1, types[i]))
}

impl<T> GFunDecl<T> {
    /// The first line of the declaration, from the texts of its parts.
    pub open spec fn header(
        &self,
        tab: Seq<char>,
        params: Seq<char>,
        types: Seq<Seq<char>>,
        output: Seq<char>,
    ) -> Seq<char> {
        tab + (if self.signature.is_unsafe {
            "unsafe "@
        } else {
            Seq::empty()
        }) + "fn "@ + self.name@ + params + "("@ + joined(argument_texts(types), ", "@) + ")"@ + (
        if self.signature.output == Ty::Unit {
            Seq::empty()
        } else {
            " -> "@ + output
        })
    }

    /// Whether `s` is the text of the declaration for the texts given of its generic
    /// parameters, of the types of its arguments, of the type of its result and of
    /// its body.
    pub open spec fn shown_with(
        &self,
        tab: Seq<char>,
        params: Seq<char>,
        types: Seq<Seq<char>>,
        output: Seq<char>,
        body: Seq<char>,
        s: Seq<char>,
    ) -> bool {
        if self.body is None {
            s == self.header(tab, params, types, output)
        } else {
            s == self.header(tab, params, types, output) + "\n"@ + tab + "{\n"@ + body + "\n"@
                + tab + "}"@
        }
    }

    /// Whether `s` is a text of the declaration, with its parts as `ctx` prints them.
    pub open spec fn shown<
        'a,
        C: Formatter<TypeDefId> + Formatter<TypeVarId> + Formatter<GenericParams> + Formatter<&'a T>,
    >(&'a self, tab: Seq<char>, ctx: &C, s: Seq<char>) -> bool {
        exists|params: Seq<char>, types: Seq<Seq<char>>, output: Seq<char>, body: Seq<char>|
            {
                &&& shows(ctx, self.signature.generics, params)
                &&& types.len() == self.signature.inputs@.len()
                &&& forall|i: int|
                    0 <= i < types.len() ==> self.signature.inputs@[i].shown(
                        ctx,
                        #[trigger] types[i],
                    )
                &&& self.signature.output != Ty::Unit ==> self.signature.output.shown(ctx, output)
                &&& self.body is Some ==> self.body->Some_0.shown(tab + "    "@, ctx, body)
                &&& #[trigger] self.shown_with(tab, params, types, output, body, s)
            }
    }

    /// The declaration as text: `unsafe` where it is, `fn` and the name, the generic
    /// parameters as `ctx` prints them, the arguments in round brackets, each with
    /// its type, and the type of the result unless that is the empty tuple. Where
    /// the declaration has code, the body follows in curly brackets, set in by four
    /// blanks more.
    pub fn gfmt_with_ctx<
        'a,
        C: Formatter<TypeDefId> + Formatter<TypeVarId> + Formatter<GenericParams> + Formatter<&'a T>,
    >(&'a self, tab: &str, ctx: &C) -> (s: String)
        ensures
            self.shown(tab@, ctx, s@),
    {
        let params = ctx.format_object(self.signature.generics);
        proof {
            assert(shows(ctx, self.signature.generics, params@));
        }
        let mut args: Vec<String> = Vec::new();
        let ghost mut types: Seq<Seq<char>> = Seq::empty();
        let mut i: usize = 0;
        while i < self.signature.inputs.len()
            invariant
                i <= self.signature.inputs@.len(),
                types.len() == i,
                forall|k: int|
                    0 <= k < i ==> self.signature.inputs@[k].shown(ctx, #[trigger] types[k]),
                args@.len() == i,
                texts(args@) =~= argument_texts(types),
            decreases self.signature.inputs@.len() - i,
        {
            let ty = self.signature.inputs[i].fmt_with_ctx(ctx);
            let id = VarId { index: i + 1 };
            let arg = concat3(id.to_pretty_string().as_str(), ": ", ty.as_str());
            let ghost old_args = args@;
            let ghost old_types = types;
            args.push(arg);
            proof {
                types = types.push(ty@);
                assert(arg@ =~= argument_text(i + 1, ty@));
                assert forall|k: int| 0 <= k <= i implies texts(args@)[k] == argument_texts(
                    types,
                )[k] by {
                    if k < i {
                        assert(texts(old_args)[k] == argument_texts(old_types)[k]);
                    }
                }
            }
            i = i + 1;
        }
        assert(texts(args@) == argument_texts(types));
        let mut out = String::from_str(tab);
        if self.signature.is_unsafe {
            out.append("unsafe ");
        }
        out.append("fn ");
        out.append(self.name.as_str());
        out.append(params.as_str());
        out.append("(");
        out.append(join(&args, ", ").as_str());
        out.append(")");
        let ghost mut output: Seq<char> = Seq::empty();
        if !self.signature.output.is_unit() {
            let ret = self.signature.output.fmt_with_ctx(ctx);
            out.append(" -> ");
            out.append(ret.as_str());
            proof {
                output = ret@;
            }
        }
        assert(out@ =~= self.header(tab@, params@, types, output));
        let ghost mut body_text: Seq<char> = Seq::empty();
        match &self.body {
            None => {},
            Some(body) => {
                let body_tab = concat2(tab, "    ");
                let text = body.fmt_with_ctx(body_tab.as_str(), ctx);
                out.append("\n");
                out.append(tab);
                out.append("{\n");
                out.append(text.as_str());
                out.append("\n");
                out.append(tab);
                out.append("}");
                proof {
                    body_text = text@;
                }
            },
        }
        proof {
            assert(self.shown_with(tab@, params@, types, output, body_text, out@));
        }
        out
    }
}

/// Whether `s` is a text of the call: the callee as `ctx` prints it, and in round
/// brackets the arguments as `ctx` prints them, with a comma and a blank between
/// each two.
pub open spec fn call_shown<'a, C: Formatter<&'a FnOperand> + Formatter<&'a Operand>>(
    ctx: &C,
    call: &'a Call,
    s: Seq<char>,
) -> bool {
    exists|callee: Seq<char>, args: Seq<Seq<char>>|
        {
            &&& shows(ctx, &call.func, callee)
            &&& args.len() == call.args@.len()
            &&& forall|i: int| 0 <= i < args.len() ==> shows(ctx, &call.args@[i], #[trigger] args[i])
            &&& s == #[trigger] call_text(callee, args)
        }
}

/// The text of a call from the texts of the callee and of the arguments.
pub open spec fn call_text(callee: Seq<char>, args: Seq<Seq<char>>) -> Seq<char> {
    callee + "("@ + joined(args, ", "@) + ")"@
}

/// Whether `comment` is what is to be said of the call in a comment: the generic
/// arguments of the trait and of the method as `ctx` prints them, where the call
/// has such arguments, and nothing where it has none.
pub open spec fn call_comment_shown<'a, C: Formatter<&'a GenericArgs>>(
    ctx: &C,
    call: &'a Call,
    comment: Option<String>,
) -> bool {
    match comment {
        Some(text) => call.trait_and_method_generic_args is Some && shows(
            ctx,
            &call.trait_and_method_generic_args->0,
            text@,
        ),
        None => call.trait_and_method_generic_args is None,
    }
}

/// The call as text, and what is to be said of it in a comment: the generic
/// arguments of the trait and of the method, where the call has them. The place
/// that the result goes to is no part of the text.
pub fn fmt_call<
    'a,
    C: Formatter<&'a FnOperand> + Formatter<&'a Operand> + Formatter<&'a GenericArgs>,
>(ctx: &C, call: &'a Call) -> (r: (String, Option<String>))
    ensures
        call_shown(ctx, call, r.0@),
        call_comment_shown(ctx, call, r.1),
{
    let trait_and_method_generic_args = match &call.trait_and_method_generic_args {
        Some(generics) => {
            let text = ctx.format_object(generics);
            proof {
                assert(shows(ctx, generics, text@));
            }
            Some(text)
        },
        None => None,
    };
    let callee = ctx.format_object(&call.func);
    proof {
        assert(shows(ctx, &call.func, callee@));
    }
    let mut args: Vec<String> = Vec::new();
    let ghost mut shown: Seq<Seq<char>> = Seq::empty();
    let mut i: usize = 0;
    while i < call.args.len()
        invariant
            i <= call.args@.len(),
            args@.len() == i,
            shown =~= texts(args@),
            forall|k: int| 0 <= k < i ==> shows(ctx, &call.args@[k], #[trigger] shown[k]),
        decreases call.args@.len() - i,
    {
        let arg = ctx.format_object(&call.args[i]);
        proof {
            assert(shows(ctx, &call.args@[i as int], arg@));
            shown = shown.push(arg@);
        }
        args.push(arg);
        i = i + 1;
    }
    let ghost callee_text = callee@;
    let mut out = callee;
    out.append("(");
    out.append(join(&args, ", ").as_str());
    out.append(")");
    proof {
        assert(shown == texts(args@));
        assert(out@ =~= call_text(callee_text, shown));
    }
    (out, trait_and_method_generic_args)
}

} // verus!
