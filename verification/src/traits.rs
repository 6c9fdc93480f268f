//! The text of trait declarations and of trait implementations.

use crate::formatter::{shows, Formatter};
use crate::gast::GenericParams;
use crate::krate::{
    GlobalDeclId, TraitClause, TraitDecl, TraitDeclRef, TraitImpl, TraitRef,
};
use crate::strings::{decimal, index_to_string, join, joined, texts};
use crate::types::{Ty, TypeDefId, TypeVarId};
use crate::ullbc::FunDeclId;
use vstd::prelude::*;
use vstd::string::StringExecFns;

verus! {

/// The lines of the first `n` clauses, each behind `tab` and four blanks more, and
/// each with a comma behind it.
pub open spec fn clause_lines(tab: Seq<char>, clauses: Seq<Seq<char>>, n: int) -> Seq<char>
    decreases n,
{
    if n <= 0 {
        Seq::empty()
    } else {
        clause_lines(tab, clauses, n - 1) + "\n"@ + tab + "    "@ + clauses[n - 1] + ","@
    }
}

/// The clauses under a `where` that stands on a line of its own behind `tab`;
/// nothing where there are no clauses.
pub open spec fn where_text(tab: Seq<char>, clauses: Seq<Seq<char>>) -> Seq<char> {
    if clauses.len() == 0 {
        Seq::empty()
    } else {
        "\n"@ + tab + "where"@ + clause_lines(tab, clauses, clauses.len() as int)
    }
}

/// The clauses as text: `where` on a line of its own behind `tab`, then each clause
/// on a line of its own, set in by four blanks more and followed by a comma.
pub fn fmt_where_clauses(tab: &str, clauses: &Vec<String>) -> (s: String)
    ensures
        s@ == where_text(tab@, texts(clauses@)),
{
    let mut out = String::new();
    if clauses.len() == 0 {
        return out;
    }
    out.append("\n");
    out.append(tab);
    out.append("where");
    let ghost head = out@;
    let mut i: usize = 0;
    while i < clauses.len()
        invariant
            i <= clauses@.len(),
            out@ == head + clause_lines(tab@, texts(clauses@), i as int),
        decreases clauses@.len() - i,
    {
        let ghost before = out@;
        out.append("\n");
        out.append(tab);
        out.append("    ");
        out.append(clauses[i].as_str());
        out.append(",");
        proof {
            assert(out@ =~= head + clause_lines(tab@, texts(clauses@), i + 1));
        }
        i = i + 1;
    }
    proof {
        assert(head =~= "\n"@ + tab@ + "where"@);
    }
    out
}

/// The items of a declaration in curly brackets, which open on a line of their own;
/// nothing where there are no items.
pub open spec fn block(lines: Seq<Seq<char>>) -> Seq<char> {
    if lines.len() == 0 {
        Seq::empty()
    } else {
        "\n{\n"@ + joined(lines, ""@) + "}"@
    }
}

/// The lines in curly brackets.
fn fmt_block(lines: &Vec<String>) -> (s: String)
    ensures
        s@ == block(texts(lines@)),
{
    let mut out = String::new();
    if lines.len() == 0 {
        return out;
    }
    out.append("\n{\n");
    out.append(join(lines, "").as_str());
    out.append("}");
    out
}

/// The texts of two lists, one after the other, are the texts of the lists one after
/// the other.
proof fn lemma_texts_add(a: Seq<String>, b: Seq<String>)
    ensures
        texts(a + b) == texts(a) + texts(b),
{
    assert(texts(a + b) =~= texts(a) + texts(b));
}

/// Whether `parts` holds, for each of the values in turn, a text that `ctx` may give
/// for it.
pub open spec fn all_shown<T, C: Formatter<T>>(ctx: &C, items: Seq<T>, parts: Seq<Seq<char>>) -> bool {
    &&& parts.len() == items.len()
    &&& forall|i: int| 0 <= i < parts.len() ==> shows(ctx, items[i], #[trigger] parts[i])
}

/// The texts that `ctx` gives for the values, in their order.
fn format_all<T: Copy, C: Formatter<T>>(ctx: &C, items: &Vec<T>) -> (r: Vec<String>)
    ensures
        all_shown(ctx, items@, texts(r@)),
{
    let mut r: Vec<String> = Vec::new();
    let mut i: usize = 0;
    while i < items.len()
        invariant
            i <= items@.len(),
            r@.len() == i,
            forall|k: int| 0 <= k < i ==> shows(ctx, items@[k], #[trigger] texts(r@)[k]),
        decreases items@.len() - i,
    {
        let text = ctx.format_object(items[i]);
        let ghost before = r@;
        proof {
            assert(shows(ctx, items@[i as int], text@));
        }
        r.push(text);
        proof {
            assert forall|k: int| 0 <= k < i + 1 implies shows(
                ctx,
                items@[k],
                #[trigger] texts(r@)[k],
            ) by {
                if k < i {
                    assert(texts(r@)[k] == texts(before)[k]);
                }
            }
        }
        i = i + 1;
    }
    r
}

/// Whether `line` is the line of a clause that the trait inherits: its index, and
/// the clause as `ctx` prints it.
pub open spec fn parent_clause_shown<C: Formatter<TraitClause>>(
    ctx: &C,
    clause: TraitClause,
    line: Seq<char>,
) -> bool {
    exists|text: Seq<char>| #[trigger]
        shows(ctx, clause, text) && line == "    parent_clause_"@ + decimal(
            clause.clause_id.index as nat,
        ) + " : "@ + text + "\n"@
}

/// Whether `text` is a text of the value where there is one, and empty where
/// there is none.
pub open spec fn default_value_shown<C: Formatter<GlobalDeclId>>(
    ctx: &C,
    value: Option<GlobalDeclId>,
    text: Seq<char>,
) -> bool {
    match value {
        None => text == Seq::<char>::empty(),
        Some(id) => shows(ctx, id, text),
    }
}

/// Whether `text` is a text of the type where there is one, and empty where there
/// is none.
pub open spec fn default_type_shown<C: Formatter<TypeDefId> + Formatter<TypeVarId>>(
    ctx: &C,
    ty: Option<Ty>,
    text: Seq<char>,
) -> bool {
    match ty {
        None => text == Seq::<char>::empty(),
        Some(t) => t.shown(ctx, text),
    }
}

/// The line of a constant: its name and its type, and its value where it has one.
pub open spec fn const_line(
    name: Seq<char>,
    ty: Seq<char>,
    valued: bool,
    value: Seq<char>,
) -> Seq<char> {
    if valued {
        "    const "@ + name + " : "@ + ty + " = "@ + value + "\n"@
    } else {
        "    const "@ + name + " : "@ + ty + "\n"@
    }
}

/// The line of a type of a trait: its name, its default where it has one, and
/// under a `where` what is asked of it.
pub open spec fn type_line(
    name: Seq<char>,
    defaulted: bool,
    ty: Seq<char>,
    clauses: Seq<Seq<char>>,
) -> Seq<char> {
    if defaulted {
        "    type "@ + name + " = "@ + ty + where_text("        "@, clauses) + "\n"@
    } else {
        "    type "@ + name + where_text("        "@, clauses) + "\n"@
    }
}

/// Whether `line` is the line of a constant of a trait: its name and its type, and
/// its default, where it has one, as `ctx` prints it.
pub open spec fn declared_const_shown<
    C: Formatter<TypeDefId> + Formatter<TypeVarId> + Formatter<GlobalDeclId>,
>(ctx: &C, item: (String, (Ty, Option<GlobalDeclId>)), line: Seq<char>) -> bool {
    exists|ty: Seq<char>, value: Seq<char>|
        {
            &&& #[trigger] item.1.0.shown(ctx, ty)
            &&& #[trigger] default_value_shown(ctx, item.1.1, value)
            &&& line == const_line(item.0@, ty, item.1.1 is Some, value)
        }
}

/// Whether `line` is the line of a type of a trait: its name, its default, where it
/// has one, and under a `where` what is asked of it.
pub open spec fn declared_type_shown<
    C: Formatter<TypeDefId> + Formatter<TypeVarId> + Formatter<TraitClause>,
>(ctx: &C, item: (String, (Vec<TraitClause>, Option<Ty>)), line: Seq<char>) -> bool {
    exists|clauses: Seq<Seq<char>>, ty: Seq<char>|
        {
            &&& #[trigger] all_shown(ctx, item.1.0@, clauses)
            &&& #[trigger] default_type_shown(ctx, item.1.1, ty)
            &&& line == type_line(item.0@, item.1.1 is Some, ty, clauses)
        }
}

/// Whether `line` is the line of a method with the function that it names, as `ctx`
/// prints that.
pub open spec fn method_shown<C: Formatter<FunDeclId>>(
    ctx: &C,
    name: Seq<char>,
    id: FunDeclId,
    line: Seq<char>,
) -> bool {
    exists|f: Seq<char>| #[trigger]
        shows(ctx, id, f) && line == "    fn "@ + name + " : "@ + f + "\n"@
}

/// Whether `line` is the line of a method of a trait that has no default.
pub open spec fn required_method_shown<C: Formatter<FunDeclId>>(
    ctx: &C,
    item: (String, FunDeclId),
    line: Seq<char>,
) -> bool {
    method_shown(ctx, item.0@, item.1, line)
}

/// Whether `line` is the line of a method of a trait that has a default: the
/// default is named where it is known.
pub open spec fn provided_method_shown<C: Formatter<FunDeclId>>(
    ctx: &C,
    item: (String, Option<FunDeclId>),
    line: Seq<char>,
) -> bool {
    match item.1 {
        None => line == "    fn "@ + item.0@ + "\n"@,
        Some(id) => method_shown(ctx, item.0@, id, line),
    }
}

impl TraitDecl {
    /// Whether `lines` holds the lines of the clauses that the trait inherits.
    pub open spec fn parent_lines<C: Formatter<TraitClause>>(
        self,
        ctx: &C,
        lines: Seq<Seq<char>>,
    ) -> bool {
        &&& lines.len() == self.parent_clauses@.len()
        &&& forall|i: int|
            0 <= i < lines.len() ==> parent_clause_shown(
                ctx,
                self.parent_clauses@[i],
                #[trigger] lines[i],
            )
    }

    /// Whether `lines` holds the lines of the constants.
    pub open spec fn const_lines<
        C: Formatter<TypeDefId> + Formatter<TypeVarId> + Formatter<GlobalDeclId>,
    >(self, ctx: &C, lines: Seq<Seq<char>>) -> bool {
        &&& lines.len() == self.consts@.len()
        &&& forall|i: int|
            0 <= i < lines.len() ==> declared_const_shown(ctx, self.consts@[i], #[trigger] lines[i])
    }

    /// Whether `lines` holds the lines of the types.
    pub open spec fn type_lines<
        C: Formatter<TypeDefId> + Formatter<TypeVarId> + Formatter<TraitClause>,
    >(self, ctx: &C, lines: Seq<Seq<char>>) -> bool {
        &&& lines.len() == self.types@.len()
        &&& forall|i: int|
            0 <= i < lines.len() ==> declared_type_shown(ctx, self.types@[i], #[trigger] lines[i])
    }

    /// Whether `lines` holds the lines of the methods without a default.
    pub open spec fn required_lines<C: Formatter<FunDeclId>>(
        self,
        ctx: &C,
        lines: Seq<Seq<char>>,
    ) -> bool {
        &&& lines.len() == self.required_methods@.len()
        &&& forall|i: int|
            0 <= i < lines.len() ==> required_method_shown(
                ctx,
                self.required_methods@[i],
                #[trigger] lines[i],
            )
    }

    /// Whether `lines` holds the lines of the methods with a default.
    pub open spec fn provided_lines<C: Formatter<FunDeclId>>(
        self,
        ctx: &C,
        lines: Seq<Seq<char>>,
    ) -> bool {
        &&& lines.len() == self.provided_methods@.len()
        &&& forall|i: int|
            0 <= i < lines.len() ==> provided_method_shown(
                ctx,
                self.provided_methods@[i],
                #[trigger] lines[i],
            )
    }

    /// Whether `lines` holds the lines of all items of the trait: the inherited
    /// clauses, the constants, the types, the methods without a default and the
    /// methods with one.
    pub open spec fn item_lines<
        C: Formatter<TypeDefId> + Formatter<TypeVarId> + Formatter<TraitClause> + Formatter<
            GlobalDeclId,
        > + Formatter<FunDeclId>,
    >(self, ctx: &C, lines: Seq<Seq<char>>) -> bool {
        exists|
            parents: Seq<Seq<char>>,
            consts: Seq<Seq<char>>,
            types: Seq<Seq<char>>,
            required: Seq<Seq<char>>,
            provided: Seq<Seq<char>>,
        |
            {
                &&& #[trigger] self.parent_lines(ctx, parents)
                &&& #[trigger] self.const_lines(ctx, consts)
                &&& #[trigger] self.type_lines(ctx, types)
                &&& #[trigger] self.required_lines(ctx, required)
                &&& #[trigger] self.provided_lines(ctx, provided)
                &&& lines == parents + consts + types + required + provided
            }
    }

    /// Whether `s` is a text of the declaration: `trait`, the name, the generic
    /// parameters as `ctx` prints them, under a `where` what is asked of them, and
    /// the items in curly brackets, each on a line of its own.
    pub open spec fn shown<
        C: Formatter<TypeDefId> + Formatter<TypeVarId> + Formatter<GenericParams> + Formatter<
            TraitClause,
        > + Formatter<GlobalDeclId> + Formatter<FunDeclId>,
    >(self, ctx: &C, s: Seq<char>) -> bool {
        exists|generics: Seq<char>, clauses: Seq<Seq<char>>, lines: Seq<Seq<char>>|
            {
                &&& #[trigger] shows(ctx, self.generics, generics)
                &&& #[trigger] all_shown(ctx, self.trait_clauses@, clauses)
                &&& #[trigger] self.item_lines(ctx, lines)
                &&& s == "trait "@ + self.name@ + generics + where_text(Seq::empty(), clauses)
                    + block(lines)
            }
    }

    fn fmt_parent_clauses<C: Formatter<TraitClause>>(&self, ctx: &C) -> (r: Vec<String>)
        ensures
            self.parent_lines(ctx, texts(r@)),
    {
        let mut r: Vec<String> = Vec::new();
        let mut i: usize = 0;
        while i < self.parent_clauses.len()
            invariant
                i <= self.parent_clauses@.len(),
                r@.len() == i,
                forall|k: int|
                    0 <= k < i ==> parent_clause_shown(
                        ctx,
                        self.parent_clauses@[k],
                        #[trigger] texts(r@)[k],
                    ),
            decreases self.parent_clauses@.len() - i,
        {
            let c = self.parent_clauses[i];
            let text = ctx.format_object(c);
            let mut line = String::from_str("    parent_clause_");
            line.append(index_to_string(c.clause_id.index).as_str());
            line.append(" : ");
            line.append(text.as_str());
            line.append("\n");
            let ghost before = r@;
            proof {
                assert(shows(ctx, c, text@));
                assert(parent_clause_shown(ctx, c, line@));
            }
            r.push(line);
            proof {
                assert forall|k: int| 0 <= k < i + 1 implies parent_clause_shown(
                    ctx,
                    self.parent_clauses@[k],
                    #[trigger] texts(r@)[k],
                ) by {
                    if k < i {
                        assert(texts(r@)[k] == texts(before)[k]);
                    }
                }
            }
            i = i + 1;
        }
        r
    }

    fn fmt_consts<C: Formatter<TypeDefId> + Formatter<TypeVarId> + Formatter<GlobalDeclId>>(
        &self,
        ctx: &C,
    ) -> (r: Vec<String>)
        ensures
            self.const_lines(ctx, texts(r@)),
    {
        let mut r: Vec<String> = Vec::new();
        let mut i: usize = 0;
        while i < self.consts.len()
            invariant
                i <= self.consts@.len(),
                r@.len() == i,
                forall|k: int|
                    0 <= k < i ==> declared_const_shown(
                        ctx,
                        self.consts@[k],
                        #[trigger] texts(r@)[k],
                    ),
            decreases self.consts@.len() - i,
        {
            let item = &self.consts[i];
            let ty = item.1.0.fmt_with_ctx(ctx);
            let mut line = String::from_str("    const ");
            line.append(item.0.as_str());
            line.append(" : ");
            line.append(ty.as_str());
            match item.1.1 {
                None => {
                    line.append("\n");
                    proof {
                        assert(item.1.0.shown(ctx, ty@));
                        assert(default_value_shown(ctx, item.1.1, Seq::empty()));
                        assert(line@ =~= const_line(item.0@, ty@, false, Seq::empty()));
                        assert(declared_const_shown(ctx, *item, line@));
                    }
                },
                Some(id) => {
                    let value = ctx.format_object(id);
                    line.append(" = ");
                    line.append(value.as_str());
                    line.append("\n");
                    proof {
                        assert(item.1.0.shown(ctx, ty@));
                        assert(shows(ctx, id, value@));
                        assert(default_value_shown(ctx, item.1.1, value@));
                        assert(line@ =~= const_line(item.0@, ty@, true, value@));
                        assert(declared_const_shown(ctx, *item, line@));
                    }
                },
            }
            let ghost before = r@;
            r.push(line);
            proof {
                assert forall|k: int| 0 <= k < i + 1 implies declared_const_shown(
                    ctx,
                    self.consts@[k],
                    #[trigger] texts(r@)[k],
                ) by {
                    if k < i {
                        assert(texts(r@)[k] == texts(before)[k]);
                    }
                }
            }
            i = i + 1;
        }
        r
    }

    fn fmt_types<C: Formatter<TypeDefId> + Formatter<TypeVarId> + Formatter<TraitClause>>(
        &self,
        ctx: &C,
    ) -> (r: Vec<String>)
        ensures
            self.type_lines(ctx, texts(r@)),
    {
        let mut r: Vec<String> = Vec::new();
        let mut i: usize = 0;
        while i < self.types.len()
            invariant
                i <= self.types@.len(),
                r@.len() == i,
                forall|k: int|
                    0 <= k < i ==> declared_type_shown(ctx, self.types@[k], #[trigger] texts(r@)[k]),
            decreases self.types@.len() - i,
        {
            let item = &self.types[i];
            let trait_clauses = format_all(ctx, &item.1.0);
            let clauses = fmt_where_clauses("        ", &trait_clauses);
            let mut line = String::from_str("    type ");
            line.append(item.0.as_str());
            match &item.1.1 {
                None => {
                    line.append(clauses.as_str());
                    line.append("\n");
                    proof {
                        assert(all_shown(ctx, item.1.0@, texts(trait_clauses@)));
                        assert(default_type_shown(ctx, item.1.1, Seq::empty()));
                        assert(line@ =~= type_line(
                            item.0@,
                            false,
                            Seq::empty(),
                            texts(trait_clauses@),
                        ));
                        assert(declared_type_shown(ctx, *item, line@));
                    }
                },
                Some(t) => {
                    let ty = t.fmt_with_ctx(ctx);
                    line.append(" = ");
                    line.append(ty.as_str());
                    line.append(clauses.as_str());
                    line.append("\n");
                    proof {
                        assert(all_shown(ctx, item.1.0@, texts(trait_clauses@)));
                        assert(t.shown(ctx, ty@));
                        assert(default_type_shown(ctx, item.1.1, ty@));
                        assert(line@ =~= type_line(item.0@, true, ty@, texts(trait_clauses@)));
                        assert(declared_type_shown(ctx, *item, line@));
                    }
                },
            }
            let ghost before = r@;
            r.push(line);
            proof {
                assert forall|k: int| 0 <= k < i + 1 implies declared_type_shown(
                    ctx,
                    self.types@[k],
                    #[trigger] texts(r@)[k],
                ) by {
                    if k < i {
                        assert(texts(r@)[k] == texts(before)[k]);
                    }
                }
            }
            i = i + 1;
        }
        r
    }

    fn fmt_required_methods<C: Formatter<FunDeclId>>(&self, ctx: &C) -> (r: Vec<String>)
        ensures
            self.required_lines(ctx, texts(r@)),
    {
        let mut r: Vec<String> = Vec::new();
        let mut i: usize = 0;
        while i < self.required_methods.len()
            invariant
                i <= self.required_methods@.len(),
                r@.len() == i,
                forall|k: int|
                    0 <= k < i ==> required_method_shown(
                        ctx,
                        self.required_methods@[k],
                        #[trigger] texts(r@)[k],
                    ),
            decreases self.required_methods@.len() - i,
        {
            let item = &self.required_methods[i];
            let line = fmt_named_method(ctx, &item.0, item.1);
            let ghost before = r@;
            r.push(line);
            proof {
                assert forall|k: int| 0 <= k < i + 1 implies required_method_shown(
                    ctx,
                    self.required_methods@[k],
                    #[trigger] texts(r@)[k],
                ) by {
                    if k < i {
                        assert(texts(r@)[k] == texts(before)[k]);
                    }
                }
            }
            i = i + 1;
        }
        r
    }

    fn fmt_provided_methods<C: Formatter<FunDeclId>>(&self, ctx: &C) -> (r: Vec<String>)
        ensures
            self.provided_lines(ctx, texts(r@)),
    {
        let mut r: Vec<String> = Vec::new();
        let mut i: usize = 0;
        while i < self.provided_methods.len()
            invariant
                i <= self.provided_methods@.len(),
                r@.len() == i,
                forall|k: int|
                    0 <= k < i ==> provided_method_shown(
                        ctx,
                        self.provided_methods@[k],
                        #[trigger] texts(r@)[k],
                    ),
            decreases self.provided_methods@.len() - i,
        {
            let item = &self.provided_methods[i];
            let line = match item.1 {
                None => {
                    let mut line = String::from_str("    fn ");
                    line.append(item.0.as_str());
                    line.append("\n");
                    line
                },
                Some(id) => fmt_named_method(ctx, &item.0, id),
            };
            let ghost before = r@;
            r.push(line);
            proof {
                assert forall|k: int| 0 <= k < i + 1 implies provided_method_shown(
                    ctx,
                    self.provided_methods@[k],
                    #[trigger] texts(r@)[k],
                ) by {
                    if k < i {
                        assert(texts(r@)[k] == texts(before)[k]);
                    }
                }
            }
            i = i + 1;
        }
        r
    }

    /// The declaration as text.
    pub fn fmt_with_ctx<
        C: Formatter<TypeDefId> + Formatter<TypeVarId> + Formatter<GenericParams> + Formatter<
            TraitClause,
        > + Formatter<GlobalDeclId> + Formatter<FunDeclId>,
    >(&self, ctx: &C) -> (s: String)
        ensures
            self.shown(ctx, s@),
    {
        let generics = ctx.format_object(self.generics);
        let mut items = self.fmt_parent_clauses(ctx);
        let ghost parents = texts(items@);
        let mut consts = self.fmt_consts(ctx);
        let ghost const_texts = texts(consts@);
        let mut types = self.fmt_types(ctx);
        let ghost type_texts = texts(types@);
        let mut required = self.fmt_required_methods(ctx);
        let ghost required_texts = texts(required@);
        let mut provided = self.fmt_provided_methods(ctx);
        let ghost provided_texts = texts(provided@);
        proof {
            lemma_texts_add(items@, consts@);
            lemma_texts_add(items@ + consts@, types@);
            lemma_texts_add(items@ + consts@ + types@, required@);
            lemma_texts_add(items@ + consts@ + types@ + required@, provided@);
        }
        items.append(&mut consts);
        items.append(&mut types);
        items.append(&mut required);
        items.append(&mut provided);
        let body = fmt_block(&items);
        let trait_clauses = format_all(ctx, &self.trait_clauses);
        let clauses = fmt_where_clauses("", &trait_clauses);
        let mut out = String::from_str("trait ");
        out.append(self.name.as_str());
        out.append(generics.as_str());
        out.append(clauses.as_str());
        out.append(body.as_str());
        proof {
            let lines = parents + const_texts + type_texts + required_texts + provided_texts;
            assert(texts(items@) == lines);
            assert(self.item_lines(ctx, lines));
            assert(shows(ctx, self.generics, generics@));
            assert(all_shown(ctx, self.trait_clauses@, texts(trait_clauses@)));
            reveal_strlit("");
            assert(""@ =~= Seq::<char>::empty());
        }
        out
    }
}

/// The line of a method with the function that it names.
fn fmt_named_method<C: Formatter<FunDeclId>>(ctx: &C, name: &String, id: FunDeclId) -> (line: String)
    ensures
        method_shown(ctx, name@, id, line@),
{
    let f = ctx.format_object(id);
    let mut line = String::from_str("    fn ");
    line.append(name.as_str());
    line.append(" : ");
    line.append(f.as_str());
    line.append("\n");
    proof {
        assert(shows(ctx, id, f@));
        assert(line@ =~= "    fn "@ + name@ + " : "@ + f@ + "\n"@);
    }
    line
}

/// Whether `line` is the line of the implementation that stands for the inherited
/// clause with the index `i`.
pub open spec fn parent_ref_shown<C: Formatter<TraitRef>>(
    ctx: &C,
    i: int,
    given: TraitRef,
    line: Seq<char>,
) -> bool {
    exists|text: Seq<char>| #[trigger]
        shows(ctx, given, text) && line == "    parent_clause"@ + decimal(i as nat) + " = "@
            + text + "\n"@
}

/// Whether `line` is the line of a constant of an implementation: its name, its
/// type, and its value as `ctx` prints it.
pub open spec fn implemented_const_shown<
    C: Formatter<TypeDefId> + Formatter<TypeVarId> + Formatter<GlobalDeclId>,
>(ctx: &C, item: (String, (Ty, GlobalDeclId)), line: Seq<char>) -> bool {
    exists|ty: Seq<char>, value: Seq<char>|
        {
            &&& #[trigger] item.1.0.shown(ctx, ty)
            &&& #[trigger] shows(ctx, item.1.1, value)
            &&& line == const_line(item.0@, ty, true, value)
        }
}

/// Whether `line` is the line of a type of an implementation: its name, the type,
/// and in square brackets the implementations that are asked of it, with a comma
/// and a blank between each two.
pub open spec fn implemented_type_shown<
    C: Formatter<TypeDefId> + Formatter<TypeVarId> + Formatter<TraitRef>,
>(ctx: &C, item: (String, (Vec<TraitRef>, Ty)), line: Seq<char>) -> bool {
    exists|refs: Seq<Seq<char>>, ty: Seq<char>|
        {
            &&& #[trigger] all_shown(ctx, item.1.0@, refs)
            &&& #[trigger] item.1.1.shown(ctx, ty)
            &&& line == "    type "@ + item.0@ + " = "@ + ty + " with ["@ + joined(refs, ", "@)
                + "]\n"@
        }
}

/// Whether `line` is the line of a method of an implementation, with the function
/// that implements it as `ctx` prints that.
pub open spec fn implemented_method_shown<C: Formatter<FunDeclId>>(
    ctx: &C,
    item: (String, FunDeclId),
    line: Seq<char>,
) -> bool {
    exists|f: Seq<char>| #[trigger]
        shows(ctx, item.1, f) && line == "    fn "@ + item.0@ + " = "@ + f + "\n"@
}

/// Whether `lines` holds the lines of the methods.
pub open spec fn method_lines<C: Formatter<FunDeclId>>(
    ctx: &C,
    methods: Seq<(String, FunDeclId)>,
    lines: Seq<Seq<char>>,
) -> bool {
    &&& lines.len() == methods.len()
    &&& forall|i: int|
        0 <= i < lines.len() ==> implemented_method_shown(ctx, methods[i], #[trigger] lines[i])
}

/// The lines of the methods of an implementation.
fn fmt_implemented_methods<C: Formatter<FunDeclId>>(
    ctx: &C,
    methods: &Vec<(String, FunDeclId)>,
) -> (r: Vec<String>)
    ensures
        method_lines(ctx, methods@, texts(r@)),
{
    let mut r: Vec<String> = Vec::new();
    let mut i: usize = 0;
    while i < methods.len()
        invariant
            i <= methods@.len(),
            r@.len() == i,
            forall|k: int|
                0 <= k < i ==> implemented_method_shown(ctx, methods@[k], #[trigger] texts(r@)[k]),
        decreases methods@.len() - i,
    {
        let item = &methods[i];
        let f = ctx.format_object(item.1);
        let mut line = String::from_str("    fn ");
        line.append(item.0.as_str());
        line.append(" = ");
        line.append(f.as_str());
        line.append("\n");
        let ghost before = r@;
        proof {
            assert(shows(ctx, item.1, f@));
            assert(line@ =~= "    fn "@ + item.0@ + " = "@ + f@ + "\n"@);
            assert(implemented_method_shown(ctx, *item, line@));
        }
        r.push(line);
        proof {
            assert forall|k: int| 0 <= k < i + 1 implies implemented_method_shown(
                ctx,
                methods@[k],
                #[trigger] texts(r@)[k],
            ) by {
                if k < i {
                    assert(texts(r@)[k] == texts(before)[k]);
                }
            }
        }
        i = i + 1;
    }
    r
}

impl TraitImpl {
    /// Whether `lines` holds the lines of the implementations that stand for the
    /// inherited clauses, which are counted from 0.
    pub open spec fn parent_lines<C: Formatter<TraitRef>>(
        self,
        ctx: &C,
        lines: Seq<Seq<char>>,
    ) -> bool {
        &&& lines.len() == self.parent_trait_refs@.len()
        &&& forall|i: int|
            0 <= i < lines.len() ==> parent_ref_shown(
                ctx,
                i,
                self.parent_trait_refs@[i],
                #[trigger] lines[i],
            )
    }

    /// Whether `lines` holds the lines of the constants.
    pub open spec fn const_lines<
        C: Formatter<TypeDefId> + Formatter<TypeVarId> + Formatter<GlobalDeclId>,
    >(self, ctx: &C, lines: Seq<Seq<char>>) -> bool {
        &&& lines.len() == self.consts@.len()
        &&& forall|i: int|
            0 <= i < lines.len() ==> implemented_const_shown(
                ctx,
                self.consts@[i],
                #[trigger] lines[i],
            )
    }

    /// Whether `lines` holds the lines of the types.
    pub open spec fn type_lines<
        C: Formatter<TypeDefId> + Formatter<TypeVarId> + Formatter<TraitRef>,
    >(self, ctx: &C, lines: Seq<Seq<char>>) -> bool {
        &&& lines.len() == self.types@.len()
        &&& forall|i: int|
            0 <= i < lines.len() ==> implemented_type_shown(
                ctx,
                self.types@[i],
                #[trigger] lines[i],
            )
    }

    /// Whether `lines` holds the lines of all items of the implementation: the
    /// inherited clauses, the constants, the types, the methods that the trait
    /// asks for and the methods that it has a default for.
    pub open spec fn item_lines<
        C: Formatter<TypeDefId> + Formatter<TypeVarId> + Formatter<TraitRef> + Formatter<
            GlobalDeclId,
        > + Formatter<FunDeclId>,
    >(self, ctx: &C, lines: Seq<Seq<char>>) -> bool {
        exists|
            parents: Seq<Seq<char>>,
            consts: Seq<Seq<char>>,
            types: Seq<Seq<char>>,
            required: Seq<Seq<char>>,
            provided: Seq<Seq<char>>,
        |
            {
                &&& #[trigger] self.parent_lines(ctx, parents)
                &&& #[trigger] self.const_lines(ctx, consts)
                &&& #[trigger] self.type_lines(ctx, types)
                &&& #[trigger] method_lines(ctx, self.required_methods@, required)
                &&& #[trigger] method_lines(ctx, self.provided_methods@, provided)
                &&& lines == parents + consts + types + required + provided
            }
    }

    /// Whether `s` is a text of the implementation: `impl` with the generic
    /// parameters, the name with the generic parameters, behind a colon the trait
    /// that is implemented, under a `where` what is asked of the generic
    /// parameters, and the items in curly brackets, each on a line of its own.
    pub open spec fn shown<
        C: Formatter<TypeDefId> + Formatter<TypeVarId> + Formatter<GenericParams> + Formatter<
            TraitClause,
        > + Formatter<TraitRef> + Formatter<TraitDeclRef> + Formatter<GlobalDeclId> + Formatter<
            FunDeclId,
        >,
    >(self, ctx: &C, s: Seq<char>) -> bool {
        exists|
            generics: Seq<char>,
            implemented: Seq<char>,
            clauses: Seq<Seq<char>>,
            lines: Seq<Seq<char>>,
        |
            {
                &&& #[trigger] shows(ctx, self.generics, generics)
                &&& #[trigger] shows(ctx, self.impl_trait, implemented)
                &&& #[trigger] all_shown(ctx, self.trait_clauses@, clauses)
                &&& #[trigger] self.item_lines(ctx, lines)
                &&& s == "impl"@ + generics + " "@ + self.name@ + generics + " : "@ + implemented
                    + where_text(Seq::empty(), clauses) + block(lines)
            }
    }

    fn fmt_parent_refs<C: Formatter<TraitRef>>(&self, ctx: &C) -> (r: Vec<String>)
        ensures
            self.parent_lines(ctx, texts(r@)),
    {
        let mut r: Vec<String> = Vec::new();
        let mut i: usize = 0;
        while i < self.parent_trait_refs.len()
            invariant
                i <= self.parent_trait_refs@.len(),
                r@.len() == i,
                forall|k: int|
                    0 <= k < i ==> parent_ref_shown(
                        ctx,
                        k,
                        self.parent_trait_refs@[k],
                        #[trigger] texts(r@)[k],
                    ),
            decreases self.parent_trait_refs@.len() - i,
        {
            let given = self.parent_trait_refs[i];
            let text = ctx.format_object(given);
            let mut line = String::from_str("    parent_clause");
            line.append(index_to_string(i).as_str());
            line.append(" = ");
            line.append(text.as_str());
            line.append("\n");
            let ghost before = r@;
            proof {
                assert(shows(ctx, given, text@));
                assert(parent_ref_shown(ctx, i as int, given, line@));
            }
            r.push(line);
            proof {
                assert forall|k: int| 0 <= k < i + 1 implies parent_ref_shown(
                    ctx,
                    k,
                    self.parent_trait_refs@[k],
                    #[trigger] texts(r@)[k],
                ) by {
                    if k < i {
                        assert(texts(r@)[k] == texts(before)[k]);
                    }
                }
            }
            i = i + 1;
        }
        r
    }

    fn fmt_consts<C: Formatter<TypeDefId> + Formatter<TypeVarId> + Formatter<GlobalDeclId>>(
        &self,
        ctx: &C,
    ) -> (r: Vec<String>)
        ensures
            self.const_lines(ctx, texts(r@)),
    {
        let mut r: Vec<String> = Vec::new();
        let mut i: usize = 0;
        while i < self.consts.len()
            invariant
                i <= self.consts@.len(),
                r@.len() == i,
                forall|k: int|
                    0 <= k < i ==> implemented_const_shown(
                        ctx,
                        self.consts@[k],
                        #[trigger] texts(r@)[k],
                    ),
            decreases self.consts@.len() - i,
        {
            let item = &self.consts[i];
            let ty = item.1.0.fmt_with_ctx(ctx);
            let value = ctx.format_object(item.1.1);
            let mut line = String::from_str("    const ");
            line.append(item.0.as_str());
            line.append(" : ");
            line.append(ty.as_str());
            line.append(" = ");
            line.append(value.as_str());
            line.append("\n");
            let ghost before = r@;
            proof {
                assert(item.1.0.shown(ctx, ty@));
                assert(shows(ctx, item.1.1, value@));
                assert(line@ =~= const_line(item.0@, ty@, true, value@));
                assert(implemented_const_shown(ctx, *item, line@));
            }
            r.push(line);
            proof {
                assert forall|k: int| 0 <= k < i + 1 implies implemented_const_shown(
                    ctx,
                    self.consts@[k],
                    #[trigger] texts(r@)[k],
                ) by {
                    if k < i {
                        assert(texts(r@)[k] == texts(before)[k]);
                    }
                }
            }
            i = i + 1;
        }
        r
    }

    fn fmt_types<C: Formatter<TypeDefId> + Formatter<TypeVarId> + Formatter<TraitRef>>(
        &self,
        ctx: &C,
    ) -> (r: Vec<String>)
        ensures
            self.type_lines(ctx, texts(r@)),
    {
        let mut r: Vec<String> = Vec::new();
        let mut i: usize = 0;
        while i < self.types.len()
            invariant
                i <= self.types@.len(),
                r@.len() == i,
                forall|k: int|
                    0 <= k < i ==> implemented_type_shown(
                        ctx,
                        self.types@[k],
                        #[trigger] texts(r@)[k],
                    ),
            decreases self.types@.len() - i,
        {
            let item = &self.types[i];
            let trait_refs = format_all(ctx, &item.1.0);
            let ty = item.1.1.fmt_with_ctx(ctx);
            let mut line = String::from_str("    type ");
            line.append(item.0.as_str());
            line.append(" = ");
            line.append(ty.as_str());
            line.append(" with [");
            line.append(join(&trait_refs, ", ").as_str());
            line.append("]\n");
            let ghost before = r@;
            proof {
                assert(all_shown(ctx, item.1.0@, texts(trait_refs@)));
                assert(item.1.1.shown(ctx, ty@));
                assert(line@ =~= "    type "@ + item.0@ + " = "@ + ty@ + " with ["@ + joined(
                    texts(trait_refs@),
                    ", "@,
                ) + "]\n"@);
                assert(implemented_type_shown(ctx, *item, line@));
            }
            r.push(line);
            proof {
                assert forall|k: int| 0 <= k < i + 1 implies implemented_type_shown(
                    ctx,
                    self.types@[k],
                    #[trigger] texts(r@)[k],
                ) by {
                    if k < i {
                        assert(texts(r@)[k] == texts(before)[k]);
                    }
                }
            }
            i = i + 1;
        }
        r
    }

    /// The implementation as text.
    pub fn fmt_with_ctx<
        C: Formatter<TypeDefId> + Formatter<TypeVarId> + Formatter<GenericParams> + Formatter<
            TraitClause,
        > + Formatter<TraitRef> + Formatter<TraitDeclRef> + Formatter<GlobalDeclId> + Formatter<
            FunDeclId,
        >,
    >(&self, ctx: &C) -> (s: String)
        ensures
            self.shown(ctx, s@),
    {
        let generics = ctx.format_object(self.generics);
        let mut items = self.fmt_parent_refs(ctx);
        let ghost parents = texts(items@);
        let mut consts = self.fmt_consts(ctx);
        let ghost const_texts = texts(consts@);
        let mut types = self.fmt_types(ctx);
        let ghost type_texts = texts(types@);
        let mut required = fmt_implemented_methods(ctx, &self.required_methods);
        let ghost required_texts = texts(required@);
        let mut provided = fmt_implemented_methods(ctx, &self.provided_methods);
        let ghost provided_texts = texts(provided@);
        proof {
            lemma_texts_add(items@, consts@);
            lemma_texts_add(items@ + consts@, types@);
            lemma_texts_add(items@ + consts@ + types@, required@);
            lemma_texts_add(items@ + consts@ + types@ + required@, provided@);
        }
        items.append(&mut consts);
        items.append(&mut types);
        items.append(&mut required);
        items.append(&mut provided);
        let body = fmt_block(&items);
        let implemented = ctx.format_object(self.impl_trait);
        let mut out = String::from_str("impl");
        out.append(generics.as_str());
        out.append(" ");
        out.append(self.name.as_str());
        out.append(generics.as_str());
        let trait_clauses = format_all(ctx, &self.trait_clauses);
        let clauses = fmt_where_clauses("", &trait_clauses);
        out.append(" : ");
        out.append(implemented.as_str());
        out.append(clauses.as_str());
        out.append(body.as_str());
        proof {
            let lines = parents + const_texts + type_texts + required_texts + provided_texts;
            assert(texts(items@) == lines);
            assert(self.item_lines(ctx, lines));
            assert(shows(ctx, self.generics, generics@));
            assert(shows(ctx, self.impl_trait, implemented@));
            assert(all_shown(ctx, self.trait_clauses@, texts(trait_clauses@)));
            reveal_strlit("");
            assert(""@ =~= Seq::<char>::empty());
        }
        out
    }
}

} // verus!
