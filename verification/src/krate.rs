//! The items of a translated crate.

use crate::formatter::{shows, Formatter};
use crate::gast::{GFunDecl, GGlobalDecl, GenericParams, ItemMeta};
use crate::types::Ty;
use crate::llbc::Tree;
use crate::ullbc::FunDeclId;
use vstd::prelude::*;

verus! {

/// The index of a type declaration.
#[derive(Clone, Copy, Debug, PartialEq, Eq, Structural, Hash)]
pub struct TypeDeclId {
    pub index: usize,
}

/// The index of a global declaration.
#[derive(Clone, Copy, Debug, PartialEq, Eq, Structural, Hash)]
pub struct GlobalDeclId {
    pub index: usize,
}

/// The index of a trait declaration.
#[derive(Clone, Copy, Debug, PartialEq, Eq, Structural, Hash)]
pub struct TraitDeclId {
    pub index: usize,
}

/// The index of a trait implementation.
#[derive(Clone, Copy, Debug, PartialEq, Eq, Structural, Hash)]
pub struct TraitImplId {
    pub index: usize,
}

/// The id of a translated item.
#[derive(Clone, Copy, Debug, PartialEq, Eq, Structural, Hash)]
pub enum AnyTransId {
    Type(TypeDeclId),
    Fun(FunDeclId),
    Global(GlobalDeclId),
    TraitDecl(TraitDeclId),
    TraitImpl(TraitImplId),
}

/// A type declaration.
#[derive(Debug)]
pub struct TypeDecl {
    pub def_id: TypeDeclId,
    pub item_meta: ItemMeta,
    pub generics: GenericParams,
}

/// The index of a clause among the clauses of an item.
#[derive(Clone, Copy, Debug, PartialEq, Eq, Structural, Hash)]
pub struct TraitClauseId {
    pub index: usize,
}

/// A clause: the trait that something is asked to implement.
#[derive(Clone, Copy, Debug, PartialEq, Eq, Structural)]
pub struct TraitClause {
    pub clause_id: TraitClauseId,
    pub trait_id: TraitDeclId,
}

/// The trait that an implementation implements.
#[derive(Clone, Copy, Debug, PartialEq, Eq, Structural)]
pub struct TraitDeclRef {
    pub trait_id: TraitDeclId,
}

/// Where the implementation of a trait comes from.
#[derive(Clone, Copy, Debug, PartialEq, Eq, Structural)]
pub enum TraitRef {
    /// An implementation of the crate.
    Impl(TraitImplId),
    /// A clause of the item at hand.
    Clause(TraitClauseId),
}

/// A trait declaration.
#[derive(Debug)]
pub struct TraitDecl {
    pub def_id: TraitDeclId,
    pub item_meta: ItemMeta,
    pub name: String,
    pub generics: GenericParams,
    /// What is asked of the generic parameters.
    pub trait_clauses: Vec<TraitClause>,
    /// The traits that an implementor has to implement as well.
    pub parent_clauses: Vec<TraitClause>,
    /// The constants by name: the type of each, and its default where it has one.
    pub consts: Vec<(String, (Ty, Option<GlobalDeclId>))>,
    /// The types by name: what is asked of each, and its default where it has one.
    pub types: Vec<(String, (Vec<TraitClause>, Option<Ty>))>,
    /// The methods without a default.
    pub required_methods: Vec<(String, FunDeclId)>,
    /// The methods with a default, which is known where it is used.
    pub provided_methods: Vec<(String, Option<FunDeclId>)>,
}

/// A trait implementation.
#[derive(Debug)]
pub struct TraitImpl {
    pub def_id: TraitImplId,
    pub item_meta: ItemMeta,
    pub name: String,
    pub generics: GenericParams,
    /// What is asked of the generic parameters.
    pub trait_clauses: Vec<TraitClause>,
    pub impl_trait: TraitDeclRef,
    /// The implementations of the traits that the trait asks for as well.
    pub parent_trait_refs: Vec<TraitRef>,
    /// The constants by name: the type and the value of each.
    pub consts: Vec<(String, (Ty, GlobalDeclId))>,
    /// The types by name: each with the implementations that are asked of it.
    pub types: Vec<(String, (Vec<TraitRef>, Ty))>,
    pub required_methods: Vec<(String, FunDeclId)>,
    pub provided_methods: Vec<(String, FunDeclId)>,
}

/// A function declaration with structured code.
pub type FunDecl = GFunDecl<Tree>;

/// A global declaration with structured code.
pub type GlobalDecl = GGlobalDecl<Tree>;

/// A translated item.
#[derive(Clone, Copy, Debug)]
pub enum AnyTransItem<'ctx> {
    Type(&'ctx TypeDecl),
    Fun(&'ctx FunDecl),
    Global(&'ctx GlobalDecl),
    TraitDecl(&'ctx TraitDecl),
    TraitImpl(&'ctx TraitImpl),
}

impl<'ctx> AnyTransItem<'ctx> {
    /// The id of the item.
    pub fn id(&self) -> (id: AnyTransId)
        ensures
            id == match *self {
                AnyTransItem::Type(d) => AnyTransId::Type(d.def_id),
                AnyTransItem::Fun(d) => AnyTransId::Fun(d.def_id),
                AnyTransItem::Global(d) => AnyTransId::Global(d.def_id),
                AnyTransItem::TraitDecl(d) => AnyTransId::TraitDecl(d.def_id),
                AnyTransItem::TraitImpl(d) => AnyTransId::TraitImpl(d.def_id),
            },
    {
        match self {
            AnyTransItem::Type(d) => AnyTransId::Type(d.def_id),
            AnyTransItem::Fun(d) => AnyTransId::Fun(d.def_id),
            AnyTransItem::Global(d) => AnyTransId::Global(d.def_id),
            AnyTransItem::TraitDecl(d) => AnyTransId::TraitDecl(d.def_id),
            AnyTransItem::TraitImpl(d) => AnyTransId::TraitImpl(d.def_id),
        }
    }

    /// What the source says of the item.
    pub fn item_meta(&self) -> (meta: &'ctx ItemMeta)
        ensures
            *meta == match *self {
                AnyTransItem::Type(d) => d.item_meta,
                AnyTransItem::Fun(d) => d.item_meta,
                AnyTransItem::Global(d) => d.item_meta,
                AnyTransItem::TraitDecl(d) => d.item_meta,
                AnyTransItem::TraitImpl(d) => d.item_meta,
            },
    {
        match self {
            AnyTransItem::Type(d) => &d.item_meta,
            AnyTransItem::Fun(d) => &d.item_meta,
            AnyTransItem::Global(d) => &d.item_meta,
            AnyTransItem::TraitDecl(d) => &d.item_meta,
            AnyTransItem::TraitImpl(d) => &d.item_meta,
        }
    }

    /// The generic parameters of the item; for a function, those of its signature.
    pub fn generic_params(&self) -> (generics: &'ctx GenericParams)
        ensures
            *generics == match *self {
                AnyTransItem::Type(d) => d.generics,
                AnyTransItem::Fun(d) => d.signature.generics,
                AnyTransItem::Global(d) => d.generics,
                AnyTransItem::TraitDecl(d) => d.generics,
                AnyTransItem::TraitImpl(d) => d.generics,
            },
    {
        match self {
            AnyTransItem::Type(d) => &d.generics,
            AnyTransItem::Fun(d) => &d.signature.generics,
            AnyTransItem::Global(d) => &d.generics,
            AnyTransItem::TraitDecl(d) => &d.generics,
            AnyTransItem::TraitImpl(d) => &d.generics,
        }
    }
}

#[verifier::external_type_specification]
#[verifier::external_body]
#[verifier::reject_recursive_types(T)]
#[verifier::reject_recursive_types(S)]
pub struct ExLinkedHashSet<T, S>(hashlink::LinkedHashSet<T, S>);

#[verifier::external_type_specification]
#[verifier::external_body]
pub struct ExDefaultHashBuilder(hashlink::DefaultHashBuilder);

/// The items of a linked set of the `hashlink` crate, in the order of its list: the
/// order in which they were put in, an item that was put in again standing at its
/// last place.
pub uninterp spec fn linked_items(s: hashlink::LinkedHashSet<(u8, usize)>) -> Seq<(u8, usize)>;

/// `hashlink::LinkedHashSet::iter`: the items of the set in the order of its list.
#[verifier::external_body]
pub(crate) fn linked_set_items(s: &hashlink::LinkedHashSet<(u8, usize)>) -> (v: Vec<(u8, usize)>)
    ensures
        v@ == linked_items(*s),
{
    s.iter().copied().collect()
}

impl AnyTransId {
    /// The id as a pair of numbers: the kind, then the index.
    pub open spec fn key(self) -> (u8, usize) {
        match self {
            AnyTransId::Type(id) => (0u8, id.index),
            AnyTransId::Fun(id) => (1u8, id.index),
            AnyTransId::Global(id) => (2u8, id.index),
            AnyTransId::TraitDecl(id) => (3u8, id.index),
            AnyTransId::TraitImpl(id) => (4u8, id.index),
        }
    }

    /// The id as a pair of numbers: the kind, then the index.
    pub fn to_key(&self) -> (k: (u8, usize))
        ensures
            k == self.key(),
    {
        match self {
            AnyTransId::Type(id) => (0u8, id.index),
            AnyTransId::Fun(id) => (1u8, id.index),
            AnyTransId::Global(id) => (2u8, id.index),
            AnyTransId::TraitDecl(id) => (3u8, id.index),
            AnyTransId::TraitImpl(id) => (4u8, id.index),
        }
    }

    /// The id that the pair of numbers stands for, if it stands for one.
    pub open spec fn of_key(k: (u8, usize)) -> Option<AnyTransId> {
        if k.0 == 0 {
            Some(AnyTransId::Type(TypeDeclId { index: k.1 }))
        } else if k.0 == 1 {
            Some(AnyTransId::Fun(FunDeclId { index: k.1 }))
        } else if k.0 == 2 {
            Some(AnyTransId::Global(GlobalDeclId { index: k.1 }))
        } else if k.0 == 3 {
            Some(AnyTransId::TraitDecl(TraitDeclId { index: k.1 }))
        } else if k.0 == 4 {
            Some(AnyTransId::TraitImpl(TraitImplId { index: k.1 }))
        } else {
            None
        }
    }

    /// The id that the pair of numbers stands for, if it stands for one.
    pub fn from_key(k: (u8, usize)) -> (r: Option<AnyTransId>)
        ensures
            r == Self::of_key(k),
    {
        if k.0 == 0 {
            Some(AnyTransId::Type(TypeDeclId { index: k.1 }))
        } else if k.0 == 1 {
            Some(AnyTransId::Fun(FunDeclId { index: k.1 }))
        } else if k.0 == 2 {
            Some(AnyTransId::Global(GlobalDeclId { index: k.1 }))
        } else if k.0 == 3 {
            Some(AnyTransId::TraitDecl(TraitDeclId { index: k.1 }))
        } else if k.0 == 4 {
            Some(AnyTransId::TraitImpl(TraitImplId { index: k.1 }))
        } else {
            None
        }
    }
}

/// An id is known by its pair of numbers.
pub proof fn key_names_its_id(id: AnyTransId)
    ensures
        AnyTransId::of_key(id.key()) == Some(id),
{
}

/// The data of a translated crate.
pub struct TranslatedCrate {
    /// The name that was asked for the crate.
    pub crate_name: String,
    /// The name of the crate as the compiler has it.
    pub real_crate_name: String,
    /// The ids of all items, as pairs of numbers, in the order in which they were met.
    pub all_ids: hashlink::LinkedHashSet<(u8, usize)>,
    /// The names of the items, also of those that were not translated.
    pub item_names: Vec<(AnyTransId, String)>,
    pub type_decls: Vec<TypeDecl>,
    pub fun_decls: Vec<FunDecl>,
    pub global_decls: Vec<GlobalDecl>,
    pub trait_decls: Vec<TraitDecl>,
    pub trait_impls: Vec<TraitImpl>,
    /// The ids of the items in groups, in the order in which the items depend on
    /// each other, once that order has been computed.
    pub ordered_decls: Option<Vec<Vec<AnyTransId>>>,
}

/// The place of the first pair at or after `k` that belongs to the id.
pub open spec fn place_of(names: Seq<(AnyTransId, String)>, id: AnyTransId, k: int) -> Option<int>
    decreases names.len() - k,
{
    if k < 0 || k >= names.len() {
        None
    } else if names[k].0 == id {
        Some(k)
    } else {
        place_of(names, id, k + 1)
    }
}

/// The place that is found holds the id, and no place between `k` and it does;
/// where none is found, no place from `k` on holds the id.
pub proof fn lemma_place_of(names: Seq<(AnyTransId, String)>, id: AnyTransId, k: int)
    requires
        0 <= k,
    ensures
        match place_of(names, id, k) {
            Some(p) => k <= p < names.len() && names[p].0 == id && forall|q: int|
                k <= q < p ==> (#[trigger] names[q]).0 != id,
            None => forall|q: int| k <= q < names.len() ==> (#[trigger] names[q]).0 != id,
        },
    decreases names.len() - k,
{
    if k < names.len() && names[k].0 != id {
        lemma_place_of(names, id, k + 1);
    }
}

/// The first place from `k` on that holds the id is the place that is found.
pub proof fn lemma_place_found(names: Seq<(AnyTransId, String)>, id: AnyTransId, k: int, p: int)
    requires
        0 <= k <= p < names.len(),
        names[p].0 == id,
        forall|q: int| k <= q < p ==> (#[trigger] names[q]).0 != id,
    ensures
        place_of(names, id, k) == Some(p),
    decreases p - k,
{
    if k < p {
        lemma_place_found(names, id, k + 1, p);
    }
}

/// Lists that hold the same ids at the same places find an id at the same place.
pub proof fn lemma_place_same_ids(
    a: Seq<(AnyTransId, String)>,
    b: Seq<(AnyTransId, String)>,
    id: AnyTransId,
    k: int,
)
    requires
        a.len() == b.len(),
        forall|q: int| 0 <= q < a.len() ==> (#[trigger] b[q]).0 == a[q].0,
        0 <= k,
    ensures
        place_of(a, id, k) == place_of(b, id, k),
    decreases a.len() - k,
{
    if k < a.len() && a[k].0 != id {
        lemma_place_same_ids(a, b, id, k + 1);
    }
}

/// A pair put behind a list changes the place of no other id.
pub proof fn lemma_place_pushed(
    names: Seq<(AnyTransId, String)>,
    pair: (AnyTransId, String),
    id: AnyTransId,
    k: int,
)
    requires
        pair.0 != id,
        0 <= k,
    ensures
        place_of(names.push(pair), id, k) == place_of(names, id, k),
    decreases names.len() + 1 - k,
{
    if k < names.len() {
        if names[k].0 != id {
            lemma_place_pushed(names, pair, id, k + 1);
        }
    } else if k == names.len() {
        assert(place_of(names.push(pair), id, k + 1) is None);
    }
}

/// The texts one after the other, each followed by an empty line.
pub open spec fn paragraphs(parts: Seq<Seq<char>>) -> Seq<char>
    decreases parts.len(),
{
    if parts.len() == 0 {
        seq![]
    } else {
        paragraphs(parts.drop_last()) + parts.last() + "\n\n"@
    }
}

/// Whether `parts` holds, for each of the items in turn, a text that `ctx` may give
/// for it.
pub open spec fn each_shown<'a, T, C: Formatter<&'a T>>(
    ctx: &C,
    items: &'a Vec<T>,
    parts: Seq<Seq<char>>,
) -> bool {
    &&& parts.len() == items@.len()
    &&& forall|i: int| 0 <= i < parts.len() ==> shows(ctx, &items@[i], #[trigger] parts[i])
}

/// Whether `parts` holds, for each of the ids in turn, a text that `ctx` may give
/// for it.
pub open spec fn ids_shown<C: Formatter<AnyTransId>>(
    ctx: &C,
    ids: Seq<AnyTransId>,
    parts: Seq<Seq<char>>,
) -> bool {
    &&& parts.len() == ids.len()
    &&& forall|i: int| 0 <= i < parts.len() ==> shows(ctx, ids[i], #[trigger] parts[i])
}

/// The ids of the groups, one group after the other.
pub open spec fn flat(groups: Seq<Vec<AnyTransId>>) -> Seq<AnyTransId>
    decreases groups.len(),
{
    if groups.len() == 0 {
        seq![]
    } else {
        flat(groups.drop_last()) + groups.last()@
    }
}

/// Whether `s` is `before` and then the items as `ctx` prints them, each followed
/// by an empty line.
pub open spec fn items_written<'a, T, C: Formatter<&'a T>>(
    ctx: &C,
    items: &'a Vec<T>,
    before: Seq<char>,
    s: Seq<char>,
) -> bool {
    exists|parts: Seq<Seq<char>>| #[trigger]
        each_shown(ctx, items, parts) && s == before + paragraphs(parts)
}

/// Writes the items behind `out` as `ctx` prints them, each followed by an empty
/// line.
pub fn write_each<'a, T, C: Formatter<&'a T>>(ctx: &C, items: &'a Vec<T>, out: &mut String)
    ensures
        items_written(ctx, items, old(out)@, final(out)@),
{
    let ghost before = out@;
    let ghost mut parts: Seq<Seq<char>> = Seq::empty();
    let mut i: usize = 0;
    while i < items.len()
        invariant
            i <= items@.len(),
            parts.len() == i,
            forall|k: int| 0 <= k < i ==> shows(ctx, &items@[k], #[trigger] parts[k]),
            out@ == before + paragraphs(parts),
        decreases items@.len() - i,
    {
        let text = ctx.format_object(&items[i]);
        let ghost earlier = parts;
        proof {
            assert(shows(ctx, &items@[i as int], text@));
            parts = parts.push(text@);
            assert(parts.drop_last() =~= earlier);
        }
        out.append(text.as_str());
        out.append("\n\n");
        proof {
            assert(out@ =~= before + paragraphs(parts));
        }
        i = i + 1;
    }
    proof {
        assert(each_shown(ctx, items, parts));
    }
}

impl TranslatedCrate {
    /// Whether `s` is a text of the crate. While the items have not been put in
    /// order, the types come first, then the globals, the trait declarations, the
    /// trait implementations and the functions; once they have, the ids come group
    /// by group. Each text is followed by an empty line.
    pub open spec fn shown<
        'a,
        C: Formatter<&'a TypeDecl> + Formatter<&'a GlobalDecl> + Formatter<&'a TraitDecl> + Formatter<
            &'a TraitImpl,
        > + Formatter<&'a FunDecl> + Formatter<AnyTransId>,
    >(&'a self, ctx: &C, s: Seq<char>) -> bool {
        match &self.ordered_decls {
            None => exists|
                types: Seq<char>,
                globals: Seq<char>,
                trait_decls: Seq<char>,
                trait_impls: Seq<char>,
            |
                {
                    &&& #[trigger] items_written(ctx, &self.type_decls, Seq::empty(), types)
                    &&& #[trigger] items_written(ctx, &self.global_decls, types, globals)
                    &&& #[trigger] items_written(ctx, &self.trait_decls, globals, trait_decls)
                    &&& #[trigger] items_written(ctx, &self.trait_impls, trait_decls, trait_impls)
                    &&& items_written(ctx, &self.fun_decls, trait_impls, s)
                },
            Some(groups) => exists|parts: Seq<Seq<char>>| #[trigger]
                ids_shown(ctx, flat(groups@), parts) && s == paragraphs(parts),
        }
    }

    /// The crate as text.
    pub fn fmt_with_ctx<
        'a,
        C: Formatter<&'a TypeDecl> + Formatter<&'a GlobalDecl> + Formatter<&'a TraitDecl> + Formatter<
            &'a TraitImpl,
        > + Formatter<&'a FunDecl> + Formatter<AnyTransId>,
    >(&'a self, ctx: &C) -> (s: String)
        ensures
            self.shown(ctx, s@),
    {
        let mut out = String::new();
        match &self.ordered_decls {
            None => {
                write_each(ctx, &self.type_decls, &mut out);
                let ghost types = out@;
                write_each(ctx, &self.global_decls, &mut out);
                let ghost globals = out@;
                write_each(ctx, &self.trait_decls, &mut out);
                let ghost trait_decls = out@;
                write_each(ctx, &self.trait_impls, &mut out);
                let ghost trait_impls = out@;
                write_each(ctx, &self.fun_decls, &mut out);
                proof {
                    assert(items_written(ctx, &self.type_decls, Seq::empty(), types));
                    assert(items_written(ctx, &self.global_decls, types, globals));
                    assert(items_written(ctx, &self.trait_decls, globals, trait_decls));
                    assert(items_written(ctx, &self.trait_impls, trait_decls, trait_impls));
                }
            },
            Some(groups) => {
                let ghost mut parts: Seq<Seq<char>> = Seq::empty();
                let mut i: usize = 0;
                while i < groups.len()
                    invariant
                        i <= groups@.len(),
                        ids_shown(ctx, flat(groups@.subrange(0, i as int)), parts),
                        out@ == paragraphs(parts),
                    decreases groups@.len() - i,
                {
                    let group = &groups[i];
                    let ghost done = flat(groups@.subrange(0, i as int));
                    let mut j: usize = 0;
                    while j < group.len()
                        invariant
                            j <= group@.len(),
                            ids_shown(ctx, done + group@.subrange(0, j as int), parts),
                            out@ == paragraphs(parts),
                        decreases group@.len() - j,
                    {
                        let text = ctx.format_object(group[j]);
                        let ghost earlier = parts;
                        proof {
                            assert(shows(ctx, group@[j as int], text@));
                            parts = parts.push(text@);
                            assert(parts.drop_last() =~= earlier);
                            assert(done + group@.subrange(0, j + 1) =~= (done + group@.subrange(
                                0,
                                j as int,
                            )).push(group@[j as int]));
                        }
                        out.append(text.as_str());
                        out.append("\n\n");
                        proof {
                            assert(out@ =~= paragraphs(parts));
                        }
                        j = j + 1;
                    }
                    proof {
                        assert(group@.subrange(0, group@.len() as int) =~= group@);
                        assert(groups@.subrange(0, i + 1).drop_last() =~= groups@.subrange(
                            0,
                            i as int,
                        ));
                    }
                    i = i + 1;
                }
                proof {
                    assert(groups@.subrange(0, groups@.len() as int) =~= groups@);
                }
            },
        }
        out
    }

    /// The item with the id, if the crate holds it.
    pub open spec fn item<'a>(&'a self, id: AnyTransId) -> Option<AnyTransItem<'a>> {
        match id {
            AnyTransId::Type(i) => if i.index < self.type_decls@.len() {
                Some(AnyTransItem::Type(&self.type_decls@[i.index as int]))
            } else {
                None
            },
            AnyTransId::Fun(i) => if i.index < self.fun_decls@.len() {
                Some(AnyTransItem::Fun(&self.fun_decls@[i.index as int]))
            } else {
                None
            },
            AnyTransId::Global(i) => if i.index < self.global_decls@.len() {
                Some(AnyTransItem::Global(&self.global_decls@[i.index as int]))
            } else {
                None
            },
            AnyTransId::TraitDecl(i) => if i.index < self.trait_decls@.len() {
                Some(AnyTransItem::TraitDecl(&self.trait_decls@[i.index as int]))
            } else {
                None
            },
            AnyTransId::TraitImpl(i) => if i.index < self.trait_impls@.len() {
                Some(AnyTransItem::TraitImpl(&self.trait_impls@[i.index as int]))
            } else {
                None
            },
        }
    }

    /// The item with the id: the declaration that stands at the index of the id in the
    /// list of its kind, if the list is long enough.
    pub fn get_item<'a>(&'a self, trans_id: AnyTransId) -> (r: Option<AnyTransItem<'a>>)
        ensures
            r == self.item(trans_id),
    {
        match trans_id {
            AnyTransId::Type(id) => if id.index < self.type_decls.len() {
                Some(AnyTransItem::Type(&self.type_decls[id.index]))
            } else {
                None
            },
            AnyTransId::Fun(id) => if id.index < self.fun_decls.len() {
                Some(AnyTransItem::Fun(&self.fun_decls[id.index]))
            } else {
                None
            },
            AnyTransId::Global(id) => if id.index < self.global_decls.len() {
                Some(AnyTransItem::Global(&self.global_decls[id.index]))
            } else {
                None
            },
            AnyTransId::TraitDecl(id) => if id.index < self.trait_decls.len() {
                Some(AnyTransItem::TraitDecl(&self.trait_decls[id.index]))
            } else {
                None
            },
            AnyTransId::TraitImpl(id) => if id.index < self.trait_impls.len() {
                Some(AnyTransItem::TraitImpl(&self.trait_impls[id.index]))
            } else {
                None
            },
        }
    }

    /// The place of the first name at or after `k` that belongs to the id.
    pub open spec fn name_place(self, id: AnyTransId, k: int) -> Option<int> {
        place_of(self.item_names@, id, k)
    }

    /// The name of the id: the first that the list of names has for it.
    pub open spec fn name(self, id: AnyTransId) -> Option<String> {
        match self.name_place(id, 0) {
            Some(k) => Some(self.item_names@[k].1),
            None => None,
        }
    }

    /// Whether no id has two names.
    pub open spec fn names_distinct(self) -> bool {
        forall|i: int, j: int|
            0 <= i < j < self.item_names@.len() ==> self.item_names@[i].0 != self.item_names@[j].0
    }

    /// Where no id has two names, every pair of the list gives the name of its id.
    pub proof fn every_name_is_found(self, k: int)
        requires
            self.names_distinct(),
            0 <= k < self.item_names@.len(),
        ensures
            self.name(self.item_names@[k].0) == Some(self.item_names@[k].1),
    {
        lemma_place_of(self.item_names@, self.item_names@[k].0, 0);
    }

    /// The name of the id, if it has one.
    pub fn item_name(&self, trans_id: AnyTransId) -> (r: Option<&String>)
        ensures
            match r {
                Some(name) => self.name(trans_id) == Some(*name),
                None => self.name(trans_id) is None,
            },
    {
        let mut k: usize = 0;
        while k < self.item_names.len()
            invariant
                k <= self.item_names@.len(),
                self.name_place(trans_id, 0) == self.name_place(trans_id, k as int),
            decreases self.item_names@.len() - k,
        {
            if self.item_names[k].0 == trans_id {
                return Some(&self.item_names[k].1);
            }
            k = k + 1;
        }
        None
    }

    /// Gives the id the name, in place of the name that it had, if it had one. The
    /// names of the other ids stay, and no id comes to have two names.
    pub fn set_item_name(&mut self, trans_id: AnyTransId, name: String)
        ensures
            final(self).name(trans_id) == Some(name),
            forall|other: AnyTransId|
                other != trans_id ==> final(self).name(other) == old(self).name(other),
            old(self).names_distinct() ==> final(self).names_distinct(),
            final(self).crate_name == old(self).crate_name,
            final(self).real_crate_name == old(self).real_crate_name,
            final(self).all_ids == old(self).all_ids,
            final(self).type_decls == old(self).type_decls,
            final(self).fun_decls == old(self).fun_decls,
            final(self).global_decls == old(self).global_decls,
            final(self).trait_decls == old(self).trait_decls,
            final(self).trait_impls == old(self).trait_impls,
            final(self).ordered_decls == old(self).ordered_decls,
    {
        let ghost before = self.item_names@;
        let mut k: usize = 0;
        while k < self.item_names.len()
            invariant
                k <= self.item_names@.len(),
                self.item_names@ == before,
                *self == *old(self),
                forall|q: int| 0 <= q < k ==> before[q].0 != trans_id,
            decreases self.item_names@.len() - k,
        {
            if self.item_names[k].0 == trans_id {
                self.item_names.set(k, (trans_id, name));
                proof {
                    let after = self.item_names@;
                    assert forall|q: int| 0 <= q < after.len() implies (#[trigger] after[q]).0
                        == before[q].0 by {}
                    lemma_place_found(after, trans_id, 0, k as int);
                    assert forall|other: AnyTransId| other != trans_id implies self.name(other)
                        == old(self).name(other) by {
                        lemma_place_same_ids(before, after, other, 0);
                        lemma_place_of(before, other, 0);
                    }
                }
                return ;
            }
            k = k + 1;
        }
        self.item_names.push((trans_id, name));
        proof {
            let after = self.item_names@;
            lemma_place_found(after, trans_id, 0, before.len() as int);
            assert forall|other: AnyTransId| other != trans_id implies self.name(other) == old(
                self,
            ).name(other) by {
                lemma_place_pushed(before, (trans_id, name), other, 0);
                lemma_place_of(before, other, 0);
            }
        }
    }

    /// The ids among the first `n` keys that stand for an item of the crate, each
    /// with its item, in the order of the keys.
    pub open spec fn items_among<'a>(&'a self, keys: Seq<(u8, usize)>, n: int) -> Seq<
        (AnyTransId, AnyTransItem<'a>),
    >
        decreases n,
    {
        if n <= 0 {
            seq![]
        } else {
            let before = self.items_among(keys, n - 1);
            match AnyTransId::of_key(keys[n - 1]) {
                Some(id) => match self.item(id) {
                    Some(item) => before.push((id, item)),
                    None => before,
                },
                None => before,
            }
        }
    }

    /// All items of the crate with their ids, in the order in which the ids were
    /// met; an id without an item is passed over.
    pub fn all_items_with_ids<'a>(&'a self) -> (r: Vec<(AnyTransId, AnyTransItem<'a>)>)
        ensures
            r@ == self.items_among(linked_items(self.all_ids), linked_items(self.all_ids).len() as int),
    {
        let keys = linked_set_items(&self.all_ids);
        let mut r: Vec<(AnyTransId, AnyTransItem<'a>)> = Vec::new();
        let mut i: usize = 0;
        while i < keys.len()
            invariant
                i <= keys@.len(),
                r@ == self.items_among(keys@, i as int),
            decreases keys@.len() - i,
        {
            match AnyTransId::from_key(keys[i]) {
                Some(id) => match self.get_item(id) {
                    Some(item) => {
                        r.push((id, item));
                    },
                    None => {},
                },
                None => {},
            }
            i = i + 1;
        }
        r
    }

    /// All items of the crate, in the order in which their ids were met.
    pub fn all_items<'a>(&'a self) -> (r: Vec<AnyTransItem<'a>>)
        ensures
            r@.len() == self.items_among(
                linked_items(self.all_ids),
                linked_items(self.all_ids).len() as int,
            ).len(),
            forall|i: int|
                0 <= i < r@.len() ==> r@[i] == self.items_among(
                    linked_items(self.all_ids),
                    linked_items(self.all_ids).len() as int,
                )[i].1,
    {
        let pairs = self.all_items_with_ids();
        let mut r: Vec<AnyTransItem<'a>> = Vec::new();
        let mut i: usize = 0;
        while i < pairs.len()
            invariant
                i <= pairs@.len(),
                r@.len() == i,
                forall|k: int| 0 <= k < i ==> r@[k] == pairs@[k].1,
            decreases pairs@.len() - i,
        {
            r.push(pairs[i].1);
            i = i + 1;
        }
        r
    }
}

} // verus!
