//! Lowering of bodies and declarations: the blocks in the order of their names,
//! the locals, and the comments of the source.

use crate::comments::{
    comment_groups, gather_comments, group_texts, line_notes, note_of, note_texts, str_lines,
    text_lines,
};
use crate::driver::MirLevel;
use crate::gast::{
    ClosureInfo, ClosureKind, FunSig, GExprBody, GFunDecl, GGlobalDecl, GenericParams, ItemKind,
    ItemMeta, ParamsInfo, Var,
};
use crate::krate::{GlobalDeclId, TraitDeclId, TraitImplId};
use crate::lower::{targets_named, translate_basic_block, LowerError, Setting};
use crate::mir::{MirBody, MirLocal};
use crate::reach::{
    discover, earlier, lemma_link_reached, links, lists_closed, only, orders_by_first_mention,
    refers,
};
use crate::strings::texts;
use crate::types::Ty;
use crate::ullbc::{BlockData, BlockId, FunDeclId, Graph, VarId};
use vstd::prelude::*;

verus! {

/// Whether the compiler has replaced boxes by the pointers inside them: it has in
/// the optimised MIR, and in no other.
pub fn boxes_are_desugared(level: MirLevel) -> (b: bool)
    ensures
        b == (level is Optimized),
{
    match level {
        MirLevel::Built => false,
        MirLevel::Promoted => false,
        MirLevel::Optimized => true,
    }
}

impl MirBody {
    /// What lowering needs to know of the body at the given level.
    pub open spec fn setting(self, level: MirLevel) -> Setting {
        Setting { boxes_are_desugared: level is Optimized, locals: self.local_decls@.len() as usize }
    }

    /// Whether lowering has an answer for the whole body: it has a first block, and
    /// lowering has an answer for every block, also for one that control never
    /// comes to.
    pub open spec fn well_formed(self, level: MirLevel) -> bool {
        &&& self.basic_blocks@.len() > 0
        &&& forall|b: int|
            0 <= b < self.basic_blocks@.len() ==> (#[trigger] self.basic_blocks@[b]).admitted(
                self.basic_blocks@.len() as int,
                self.setting(level),
            )
    }

    pub fn check_well_formed(&self, level: MirLevel) -> (r: bool)
        ensures
            r == self.well_formed(level),
    {
        let n = self.basic_blocks.len();
        if n == 0 {
            return false;
        }
        let setting = Setting {
            boxes_are_desugared: boxes_are_desugared(level),
            locals: self.local_decls.len(),
        };
        let mut b: usize = 0;
        while b < n
            invariant
                n == self.basic_blocks@.len(),
                setting == self.setting(level),
                b <= n,
                forall|c: int|
                    0 <= c < b ==> (#[trigger] self.basic_blocks@[c]).admitted(n as int, setting),
            decreases n - b,
        {
            if !self.basic_blocks[b].check_admitted(n, setting) {
                return false;
            }
            b = b + 1;
        }
        true
    }

    /// Whether lowering has an answer for block `m`.
    pub open spec fn block_admitted(self, m: int, level: MirLevel) -> bool {
        self.basic_blocks@[m].admitted(self.basic_blocks@.len() as int, self.setting(level))
    }

    /// Why block `m` is not lowered, if it is not: a block that lowering has no
    /// answer for is refused as a whole, another has the error of its first
    /// statement that has one, or else that of its terminator.
    pub open spec fn block_error(self, m: int, level: MirLevel) -> Option<LowerError> {
        if !self.block_admitted(m, level) {
            Some(LowerError::Panic)
        } else {
            self.basic_blocks@[m].error()
        }
    }

    /// The blocks that lowering follows from block `m`: those that its terminator
    /// leads to; none from a block that lowering has no answer for.
    pub open spec fn succs(self, m: int, level: MirLevel) -> Seq<usize> {
        if self.block_admitted(m, level) {
            self.basic_blocks@[m].terminator->0.kind.successors()
        } else {
            seq![]
        }
    }

    /// Whether block `order[p]` names `x` at place `s` among the blocks that it leads to.
    pub open spec fn mentions(
        self,
        level: MirLevel,
        order: Seq<usize>,
        p: int,
        s: int,
        x: usize,
    ) -> bool {
        &&& 0 <= p < order.len()
        &&& 0 <= s < self.succs(order[p] as int, level).len()
        &&& self.succs(order[p] as int, level)[s] == x
    }

    /// Whether `order` lists the blocks that lowering keeps, in the order of their
    /// names: the first block of the body first, then every block that a block before
    /// it leads to, each once, where it is first led to.
    pub open spec fn lowering_order(self, level: MirLevel, order: Seq<usize>) -> bool {
        &&& order.len() >= 1
        &&& order[0] == 0
        &&& order.no_duplicates()
        &&& forall|i: int| 0 <= i < order.len() ==> (#[trigger] order[i]) < self.basic_blocks@.len()
        &&& forall|p: int, s: int, x: usize| #[trigger]
            self.mentions(level, order, p, s, x) ==> order.contains(x)
        &&& exists|from: Seq<(int, int)>|
            {
                &&& from.len() == order.len()
                &&& forall|j: int|
                    1 <= j < order.len() ==> {
                        &&& (#[trigger] from[j]).0 < j
                        &&& self.mentions(level, order, from[j].0, from[j].1, order[j])
                    }
                &&& forall|j: int, p: int, s: int|
                    1 <= j < order.len() && #[trigger] self.mentions(level, order, p, s, order[j])
                        ==> !earlier(p, s, (#[trigger] from[j]).0, from[j].1)
                &&& forall|i: int, j: int|
                    1 <= i < j < order.len() ==> earlier(
                        (#[trigger] from[i]).0,
                        from[i].1,
                        (#[trigger] from[j]).0,
                        from[j].1,
                    )
            }
    }

    /// For every block, the blocks that lowering follows from it.
    pub fn successor_lists(&self, level: MirLevel) -> (adj: Vec<Vec<usize>>)
        ensures
            adj@.len() == self.basic_blocks@.len(),
            forall|m: int| 0 <= m < adj@.len() ==> (#[trigger] adj@[m])@ == self.succs(m, level),
            lists_closed(adj@),
    {
        let n = self.basic_blocks.len();
        let setting = Setting {
            boxes_are_desugared: boxes_are_desugared(level),
            locals: self.local_decls.len(),
        };
        let mut adj: Vec<Vec<usize>> = Vec::new();
        let mut m: usize = 0;
        while m < n
            invariant
                n == self.basic_blocks@.len(),
                setting == self.setting(level),
                m <= n,
                adj@.len() == m,
                forall|k: int| 0 <= k < m ==> (#[trigger] adj@[k])@ == self.succs(k, level),
            decreases n - m,
        {
            let list = if self.basic_blocks[m].check_admitted(n, setting) {
                match &self.basic_blocks[m].terminator {
                    Some(t) => t.kind.successor_list(),
                    None => Vec::new(),
                }
            } else {
                Vec::new()
            };
            proof {
                assert(list@ =~= self.succs(m as int, level));
            }
            adj.push(list);
            m = m + 1;
        }
        proof {
            assert forall|u: int, k: int| 0 <= u < adj@.len() && 0 <= k < adj@[u]@.len() implies (
            #[trigger] adj@[u]@[k]) < adj@.len() by {
                assert(adj@[u]@ == self.succs(u, level));
                assert(self.block_admitted(u, level));
                assert(self.succs(u, level)[k] < n);
            }
        }
        adj
    }
}

/// Whether the names are those that the order gives: a block has the name `i` if and
/// only if it stands at place `i` of the order.
pub open spec fn names_match(names: Seq<Option<BlockId>>, order: Seq<usize>) -> bool {
    &&& forall|i: int|
        0 <= i < order.len() ==> (#[trigger] order[i]) < names.len() && names[order[i] as int]
            == Some(i as usize)
    &&& forall|m: int|
        0 <= m < names.len() && (#[trigger] names[m]) is Some ==> names[m]->0 < order.len()
            && order[names[m]->0 as int] == m
}

/// The names that the order gives to `n` blocks.
pub fn block_names(order: &Vec<usize>, n: usize) -> (names: Vec<Option<BlockId>>)
    requires
        order@.no_duplicates(),
        forall|i: int| 0 <= i < order@.len() ==> order@[i] < n,
    ensures
        names@.len() == n,
        names_match(names@, order@),
{
    let mut names: Vec<Option<BlockId>> = Vec::new();
    let mut m: usize = 0;
    while m < n
        invariant
            m <= n,
            names@.len() == m,
            forall|k: int| 0 <= k < m ==> names@[k] is None,
        decreases n - m,
    {
        names.push(None);
        m = m + 1;
    }
    let mut i: usize = 0;
    while i < order.len()
        invariant
            i <= order@.len(),
            names@.len() == n,
            order@.no_duplicates(),
            forall|k: int| 0 <= k < order@.len() ==> order@[k] < n,
            forall|k: int| 0 <= k < i ==> names@[(#[trigger] order@[k]) as int] == Some(k as usize),
            forall|m: int|
                0 <= m < n && (#[trigger] names@[m]) is Some ==> names@[m]->0 < i
                    && order@[names@[m]->0 as int] == m,
        decreases order@.len() - i,
    {
        let ghost before = names@;
        names.set(order[i], Some(i));
        proof {
            assert forall|k: int| 0 <= k < i + 1 implies names@[(#[trigger] order@[k]) as int] == Some(
                k as usize,
            ) by {
                if k < i {
                    assert(order@[k] != order@[i as int]);
                }
            }
        }
        i = i + 1;
    }
    names
}

/// The locals of the compiler as locals of the body, each at its own index.
pub fn translate_body_locals(locals: &Vec<MirLocal>) -> (vars: Vec<Var>)
    ensures
        vars@.len() == locals@.len(),
        forall|i: int|
            0 <= i < vars@.len() ==> {
                &&& (#[trigger] vars@[i]).index.index == i
                &&& vars@[i].name == locals@[i].name
                &&& vars@[i].ty == locals@[i].ty
            },
{
    let mut vars: Vec<Var> = Vec::new();
    let mut index: usize = 0;
    while index < locals.len()
        invariant
            index <= locals@.len(),
            vars@.len() == index,
            forall|i: int|
                0 <= i < index ==> {
                    &&& (#[trigger] vars@[i]).index.index == i
                    &&& vars@[i].name == locals@[i].name
                    &&& vars@[i].ty == locals@[i].ty
                },
        decreases locals@.len() - index,
    {
        let var = &locals[index];
        let name = match &var.name {
            Some(n) => Some(n.clone()),
            None => None,
        };
        vars.push(Var { index: VarId { index }, name, ty: var.ty });
        index = index + 1;
    }
    vars
}

/// Whether `g` is what the blocks of the body become in the order given: control
/// starts at block 0, and block `i` is what the block at place `i` of the order becomes.
pub open spec fn lowers_body(
    body: MirBody,
    level: MirLevel,
    order: Seq<usize>,
    names: Seq<Option<BlockId>>,
    g: Graph,
) -> bool {
    &&& g.entry == 0
    &&& g.blocks@.len() == order.len()
    &&& forall|i: int|
        0 <= i < order.len() ==> {
            &&& #[trigger] body.block_error(order[i] as int, level) is None
            &&& body.basic_blocks@[order[i] as int].lowers_to(names, g.blocks@[i])
        }
}

/// Whether lowering fails with `e` in the order given: `e` is the error of the first
/// block of the order that is not lowered.
pub open spec fn fails_at(body: MirBody, level: MirLevel, order: Seq<usize>, e: LowerError) -> bool {
    exists|k: int|
        {
            &&& 0 <= k < order.len()
            &&& #[trigger] body.block_error(order[k] as int, level) == Some(e)
            &&& forall|j: int|
                0 <= j < k ==> #[trigger] body.block_error(order[j] as int, level) is None
        }
}

/// Whether lowering the blocks of the body fails with `e`: the body has no block at
/// all, which lowering has no answer for, or `e` is the error of the first block, in
/// the order of the names, that is not lowered.
pub open spec fn lowering_fails(body: MirBody, level: MirLevel, e: LowerError) -> bool {
    ||| body.basic_blocks@.len() == 0 && e == LowerError::Panic
    ||| exists|order: Seq<usize>| #[trigger]
        body.lowering_order(level, order) && fails_at(body, level, order, e)
}

/// Whether `g` is what the blocks of the body become.
pub open spec fn lowers_blocks(body: MirBody, level: MirLevel, g: Graph) -> bool {
    exists|order: Seq<usize>, names: Seq<Option<BlockId>>|
        {
            &&& #[trigger] body.lowering_order(level, order)
            &&& #[trigger] names_match(names, order)
            &&& names.len() == body.basic_blocks@.len()
            &&& lowers_body(body, level, order, names, g)
        }
}

/// Lowers the blocks of a body. The first block gets the name 0, and every other
/// block that control can come to gets the next free name where a block that is
/// lowered before it first leads to it. Fails with the error of the first block, in
/// the order of the names, that is not lowered; a block that control never comes
/// to is not looked at.
pub fn translate_transparent_expression_body(body: &MirBody, level: MirLevel) -> (r: Result<
    Graph,
    LowerError,
>)
    ensures
        match r {
            Ok(g) => lowers_blocks(*body, level, g),
            Err(e) => lowering_fails(*body, level, e),
        },
{
    let n = body.basic_blocks.len();
    if n == 0 {
        return Err(LowerError::Panic);
    }
    let setting = Setting {
        boxes_are_desugared: boxes_are_desugared(level),
        locals: body.local_decls.len(),
    };
    let adj = body.successor_lists(level);
    let order = discover(&adj, 0);
    let names = block_names(&order, n);
    proof {
        assert forall|p: int, s: int, x: usize| #[trigger]
            body.mentions(level, order@, p, s, x) == refers(adj@, order@, p, s, x) by {
            if 0 <= p < order@.len() {
                assert(adj@[order@[p] as int]@ == body.succs(order@[p] as int, level));
            }
        }
        assert forall|p: int, s: int, x: usize| #[trigger]
            body.mentions(level, order@, p, s, x) implies order@.contains(x) by {
            let u = order@[p];
            assert(order@.contains(u));
            assert(adj@[u as int]@[s] == x);
            assert(x < n);
            assert(links(adj@, u as int, x as int));
            lemma_link_reached(adj@, only(n as int, 0), -1, u as int, x as int);
        }
        let from = choose|from: Seq<(int, int)>| orders_by_first_mention(adj@, order@, from);
        assert(body.lowering_order(level, order@)) by {
            assert forall|j: int| 1 <= j < order@.len() implies {
                &&& (#[trigger] from[j]).0 < j
                &&& body.mentions(level, order@, from[j].0, from[j].1, order@[j])
            } by {
                assert(refers(adj@, order@, from[j].0, from[j].1, order@[j]));
            }
            assert forall|j: int, p: int, s: int|
                1 <= j < order@.len() && #[trigger] body.mentions(
                    level,
                    order@,
                    p,
                    s,
                    order@[j],
                ) implies !earlier(p, s, (#[trigger] from[j]).0, from[j].1) by {
                assert(refers(adj@, order@, p, s, order@[j]));
            }
        }
    }
    let mut blocks: Vec<BlockData> = Vec::new();
    let mut i: usize = 0;
    while i < order.len()
        invariant
            n == body.basic_blocks@.len(),
            setting == body.setting(level),
            body.lowering_order(level, order@),
            names@.len() == n,
            names_match(names@, order@),
            i <= order@.len(),
            blocks@.len() == i,
            forall|k: int|
                0 <= k < i ==> {
                    &&& #[trigger] body.block_error(order@[k] as int, level) is None
                    &&& body.basic_blocks@[order@[k] as int].lowers_to(names@, blocks@[k])
                },
        decreases order@.len() - i,
    {
        let m = order[i];
        let block = &body.basic_blocks[m];
        proof {
            if body.block_admitted(m as int, level) {
                assert(targets_named(block.terminator->0.kind, names@)) by {
                    assert forall|k: int|
                        0 <= k < block.terminator->0.kind.successors().len() implies {
                        &&& (#[trigger] block.terminator->0.kind.successors()[k]) < names@.len()
                        &&& names@[block.terminator->0.kind.successors()[k] as int] is Some
                    } by {
                        let x = block.terminator->0.kind.successors()[k];
                        assert(body.mentions(level, order@, i as int, k, x));
                        assert(order@.contains(x));
                        let t = choose|t: int| 0 <= t < order@.len() && order@[t] == x;
                        assert(names@[order@[t] as int] == Some(t as usize));
                    }
                }
            }
            assert(block.failure(names@, setting) == body.block_error(m as int, level));
        }
        match translate_basic_block(&names, block, setting) {
            Ok(out) => {
                blocks.push(out);
            },
            Err(e) => {
                assert(fails_at(*body, level, order@, e));
                return Err(e);
            },
        }
        i = i + 1;
    }
    let g = Graph { entry: 0, blocks };
    assert(lowers_body(*body, level, order@, names@, g));
    Ok(g)
}

/// The comment on each line of the text, where the line is a comment.
pub open spec fn notes_of_text(text: Seq<char>) -> Seq<Option<Seq<char>>> {
    Seq::new(text_lines(text).len(), |i: int| note_of(text_lines(text)[i]))
}

/// The groups of comments in the text of a body that ends on line `end_line`, from the
/// first to the last: for the last line and for every line that is no comment, the
/// comments right above it, with the number of the line.
pub open spec fn body_comments(text: Seq<char>, end_line: int) -> Seq<(usize, Seq<Seq<char>>)> {
    comment_groups(notes_of_text(text), text_lines(text).len() as int, end_line).reverse()
}

/// Gathers the lines that start with `//` in the text of a body. The text must not
/// have more lines than lie above the end of the span.
pub fn translate_body_comments(source_text: &Option<String>, end_line: usize) -> (r: Vec<
    (usize, Vec<String>),
>)
    requires
        source_text is Some ==> text_lines(source_text->0@).len() <= end_line + 1,
    ensures
        match *source_text {
            Some(text) => group_texts(r@) == body_comments(text@, end_line as int),
            None => r@.len() == 0,
        },
{
    match source_text {
        Some(text) => {
            let lines = str_lines(text.as_str());
            assert(texts(lines@).len() == lines@.len());
            let notes = line_notes(&lines);
            proof {
                assert(note_texts(notes@) =~= notes_of_text(text@)) by {
                    assert forall|i: int| 0 <= i < notes@.len() implies note_texts(
                        notes@,
                    )[i] == notes_of_text(text@)[i] by {
                        assert(texts(lines@)[i] == lines@[i]@);
                    }
                }
            }
            gather_comments(&notes, end_line)
        },
        None => Vec::new(),
    }
}

/// Gathers the lines that start with `//` in the text of a body, unless the text
/// has more lines than lie above the end of the span.
pub fn gather_body_comments(source_text: &Option<String>, end_line: usize) -> (r: Option<
    Vec<(usize, Vec<String>)>,
>)
    ensures
        match r {
            Some(groups) => match *source_text {
                Some(text) => text_lines(text@).len() <= end_line + 1 && group_texts(groups@)
                    == body_comments(text@, end_line as int),
                None => groups@.len() == 0,
            },
            None => source_text is Some && text_lines(source_text->0@).len() > end_line + 1,
        },
{
    let fits = match source_text {
        Some(text) => {
            let lines = str_lines(text.as_str());
            assert(texts(lines@).len() == lines@.len());
            lines.len() == 0 || lines.len() - 1 <= end_line
        },
        None => true,
    };
    if fits {
        Some(translate_body_comments(source_text, end_line))
    } else {
        None
    }
}

/// Where an item of an implementation or of a trait stands.
#[derive(Debug)]
pub enum MirContainer {
    InherentImpl,
    TraitImpl { impl_id: TraitImplId, implemented_trait: TraitDeclId, overrides_default: bool },
    Trait { trait_id: TraitDeclId },
}

/// What the compiler says of an item that belongs to an implementation or to a trait.
#[derive(Debug)]
pub struct MirAssocItem {
    pub name: String,
    /// Whether the item has a value of its own: a body, or a default.
    pub has_value: bool,
    pub container: MirContainer,
}

/// The signature of a function as the compiler has it.
#[derive(Debug)]
pub struct MirSig {
    pub inputs: Vec<Ty>,
    pub output: Ty,
    pub is_unsafe: bool,
}

/// What a definition defines.
#[derive(Debug)]
pub enum MirDefKind {
    /// A closure: its signature, how it may be called, and the types of what it
    /// has captured.
    Closure { sig: MirSig, kind: ClosureKind, upvar_tys: Vec<Ty> },
    /// A function of its own.
    Fn { sig: MirSig },
    /// A function of an implementation or of a trait, with the numbers of generic
    /// parameters and trait clauses of the block that it stands in.
    AssocFn { sig: MirSig, parent: ParamsInfo },
    /// The constructor of a struct or of a variant.
    Ctor,
    Const { ty: Ty },
    AssocConst { ty: Ty },
    Static { ty: Ty },
    /// Anything else.
    Other,
}

/// A definition of the compiler, as far as lowering reads it.
#[derive(Debug)]
pub struct MirDef {
    /// What the definition defines.
    pub kind: MirDefKind,
    /// What is said of the item, where it belongs to an implementation or to a trait.
    pub assoc_item: Option<MirAssocItem>,
    /// Whether the contents of the item are to stay hidden.
    pub opaque: bool,
    /// The body, where the compiler has one.
    pub body: Option<MirBody>,
}

/// Whether `kind` is the kind of the item: regular for an item of its own or of an
/// inherent implementation, else the implementation or the declaration of a trait item.
pub open spec fn kind_of(assoc: Option<MirAssocItem>, kind: ItemKind) -> bool {
    match assoc {
        None => kind is Regular,
        Some(item) => match item.container {
            MirContainer::InherentImpl => kind is Regular,
            MirContainer::TraitImpl { impl_id, implemented_trait, overrides_default } => kind
                == (ItemKind::TraitImpl {
                impl_id,
                trait_id: implemented_trait,
                item_name: item.name,
                reuses_default: !overrides_default,
            }),
            MirContainer::Trait { trait_id } => kind == (ItemKind::TraitDecl {
                trait_id,
                item_name: item.name,
                has_default: item.has_value,
            }),
        },
    }
}

/// The kind of an item.
pub fn get_item_kind(assoc_item: &Option<MirAssocItem>) -> (kind: ItemKind)
    ensures
        kind_of(*assoc_item, kind),
{
    match assoc_item {
        None => ItemKind::Regular,
        Some(assoc) => match &assoc.container {
            MirContainer::InherentImpl => ItemKind::Regular,
            MirContainer::TraitImpl { impl_id, implemented_trait, overrides_default } => {
                ItemKind::TraitImpl {
                    impl_id: *impl_id,
                    trait_id: *implemented_trait,
                    item_name: assoc.name.clone(),
                    reuses_default: !*overrides_default,
                }
            },
            MirContainer::Trait { trait_id } => ItemKind::TraitDecl {
                trait_id: *trait_id,
                item_name: assoc.name.clone(),
                has_default: assoc.has_value,
            },
        },
    }
}

impl MirDef {
    /// Whether lowering has an answer for the whole definition: its body, if it has
    /// one, is well formed.
    pub open spec fn well_formed(self, level: MirLevel) -> bool {
        self.body is Some ==> self.body->0.well_formed(level)
    }

    pub fn check_well_formed(&self, level: MirLevel) -> (b: bool)
        ensures
            b == self.well_formed(level),
    {
        match &self.body {
            Some(body) => body.check_well_formed(level),
            None => true,
        }
    }
}

/// Whether `out` is what the body of the compiler becomes with `arg_count` arguments:
/// the locals at their indices, the comments of the text, and the blocks lowered.
pub open spec fn lowers_to(
    body: MirBody,
    level: MirLevel,
    arg_count: usize,
    out: GExprBody<Graph>,
) -> bool {
    &&& out.span == body.span
    &&& out.arg_count == arg_count
    &&& out.locals@.len() == body.local_decls@.len()
    &&& forall|i: int|
        0 <= i < out.locals@.len() ==> {
            &&& (#[trigger] out.locals@[i]).index.index == i
            &&& out.locals@[i].name == body.local_decls@[i].name
            &&& out.locals@[i].ty == body.local_decls@[i].ty
        }
    &&& match body.source_text {
        Some(text) => group_texts(out.comments@) == body_comments(text@, body.span.end_line as int),
        None => out.comments@.len() == 0,
    }
    &&& lowers_blocks(body, level, out.body)
}

/// Whether lowering the body fails with `e`: a block is not lowered, or the blocks
/// are and the text of the body has more lines than lie above the end of its span.
pub open spec fn body_fails(body: MirBody, level: MirLevel, e: LowerError) -> bool {
    ||| lowering_fails(body, level, e)
    ||| {
        &&& e == LowerError::SourceSpan
        &&& exists|g: Graph| lowers_blocks(body, level, g)
        &&& body.source_text is Some
        &&& text_lines(body.source_text->0@).len() > body.span.end_line + 1
    }
}

/// Lowers the body of a definition, unless the definition is to stay opaque or has no
/// body. Fails where a block is not lowered, or where the text of the body does not
/// fit its span. A body that lowering has no answer for is an error like any other.
pub fn translate_body(def: &MirDef, arg_count: usize, level: MirLevel) -> (r: Result<
    Option<GExprBody<Graph>>,
    LowerError,
>)
    ensures
        match r {
            Ok(None) => def.opaque || def.body is None,
            Ok(Some(out)) => !def.opaque && def.body is Some && lowers_to(
                def.body->0,
                level,
                arg_count,
                out,
            ),
            Err(e) => !def.opaque && def.body is Some && body_fails(def.body->0, level, e),
        },
{
    if def.opaque {
        return Ok(None);
    }
    let body = match &def.body {
        Some(body) => body,
        None => {
            return Ok(None);
        },
    };
    let locals = translate_body_locals(&body.local_decls);
    let graph = match translate_transparent_expression_body(body, level) {
        Ok(graph) => graph,
        Err(e) => {
            return Err(e);
        },
    };
    let comments = match gather_body_comments(&body.source_text, body.span.end_line) {
        Some(comments) => comments,
        None => {
            return Err(LowerError::SourceSpan);
        },
    };
    Ok(Some(GExprBody { span: body.span, arg_count, locals, comments, body: graph }))
}

/// Whether the body of a function is left out because the function only declares a
/// method of a trait that has no default.
pub open spec fn declares_without_default(kind: ItemKind) -> bool {
    kind matches ItemKind::TraitDecl { has_default, .. } && !has_default
}

/// The types, one for one.
pub fn copy_types(types: &Vec<Ty>) -> (r: Vec<Ty>)
    ensures
        r@ == types@,
{
    let mut r: Vec<Ty> = Vec::new();
    let mut i: usize = 0;
    while i < types.len()
        invariant
            i <= types@.len(),
            r@ == types@.subrange(0, i as int),
        decreases types@.len() - i,
    {
        r.push(types[i]);
        proof {
            assert(r@ =~= types@.subrange(0, i + 1));
        }
        i = i + 1;
    }
    proof {
        assert(r@ =~= types@);
    }
    r
}

impl MirDef {
    /// Whether the definition is that of something that can be called: a closure, a
    /// function, or a constructor.
    pub open spec fn callable(self) -> bool {
        self.kind is Closure || self.kind is Fn || self.kind is AssocFn || self.kind is Ctor
    }

    /// Whether the definition is that of a constant or of a static.
    pub open spec fn constant(self) -> bool {
        self.kind is Const || self.kind is AssocConst || self.kind is Static
    }

    /// The type of the constant or static.
    pub open spec fn constant_ty(self) -> Ty {
        match self.kind {
            MirDefKind::Const { ty } => ty,
            MirDefKind::AssocConst { ty } => ty,
            MirDefKind::Static { ty } => ty,
            _ => arbitrary(),
        }
    }

    /// Whether the definition stands in a trait.
    pub open spec fn in_trait(self) -> bool {
        self.assoc_item matches Some(item) && item.container is Trait
    }

    /// What a method has from the block that it stands in. In a trait the clauses of
    /// the trait are clauses of `Self`, so the method has none of them as its own.
    pub open spec fn parent_params(self) -> Option<ParamsInfo> {
        match self.kind {
            MirDefKind::AssocFn { parent, .. } => Some(
                if self.in_trait() {
                    ParamsInfo { num_trait_clauses: 0, ..parent }
                } else {
                    parent
                },
            ),
            _ => None,
        }
    }

    /// The signature that the compiler has of a definition that has one.
    pub open spec fn sig(self) -> MirSig {
        match self.kind {
            MirDefKind::Closure { sig, .. } => sig,
            MirDefKind::Fn { sig } => sig,
            MirDefKind::AssocFn { sig, .. } => sig,
            _ => arbitrary(),
        }
    }

    /// Whether `out` is the signature of the definition with the generic parameters
    /// given: the types of the arguments and of the result and the safety as the
    /// compiler has them; for a closure, its kind and the types of what it has
    /// captured; for a method, what it has from the block that it stands in.
    pub open spec fn signed(self, generics: GenericParams, out: FunSig) -> bool {
        &&& out.generics == generics
        &&& out.inputs@ == self.sig().inputs@
        &&& out.output == self.sig().output
        &&& out.is_unsafe == self.sig().is_unsafe
        &&& out.is_closure == (self.kind is Closure)
        &&& match self.kind {
            MirDefKind::Closure { kind, upvar_tys, .. } => out.closure_info matches Some(info)
                && info.kind == kind && info.state@ == upvar_tys@,
            _ => out.closure_info is None,
        }
        &&& out.parent_params_info == self.parent_params()
    }
}

/// The signature of a function. A constructor has none: it is refused.
pub fn translate_function_signature(generics: GenericParams, def: &MirDef) -> (r: Result<
    FunSig,
    LowerError,
>)
    requires
        def.callable(),
    ensures
        match r {
            Ok(out) => !(def.kind is Ctor) && def.signed(generics, out),
            Err(e) => def.kind is Ctor && e == LowerError::Constructor,
        },
{
    let signature = match &def.kind {
        MirDefKind::Closure { sig, .. } => sig,
        MirDefKind::Fn { sig } => sig,
        MirDefKind::AssocFn { sig, .. } => sig,
        MirDefKind::Ctor => {
            return Err(LowerError::Constructor);
        },
        _ => unreached(),
    };
    let inputs = copy_types(&signature.inputs);
    let output = signature.output;
    let is_unsafe = signature.is_unsafe;
    let closure_info = match &def.kind {
        MirDefKind::Closure { kind, upvar_tys, .. } => Some(
            ClosureInfo { kind: *kind, state: copy_types(upvar_tys) },
        ),
        _ => None,
    };
    let parent_params_info = match &def.kind {
        MirDefKind::AssocFn { parent, .. } => {
            let mut params_info = *parent;
            let in_trait = match &def.assoc_item {
                Some(item) => match &item.container {
                    MirContainer::Trait { .. } => true,
                    _ => false,
                },
                None => false,
            };
            if in_trait {
                params_info.num_trait_clauses = 0;
            }
            Some(params_info)
        },
        _ => None,
    };
    let is_closure = match &def.kind {
        MirDefKind::Closure { .. } => true,
        _ => false,
    };
    Ok(FunSig { generics, is_unsafe, is_closure, closure_info, parent_params_info, inputs, output })
}

/// What the lowering of a declaration goes by.
#[derive(Clone, Copy, Debug)]
pub struct BodyTransCtx {
    /// The stage of the compiler's pipeline whose MIR is lowered.
    pub mir_level: MirLevel,
}

impl BodyTransCtx {
    /// Lowers a function. A constructor is refused. The declaration of a trait method
    /// without a default gets no body; else the body is lowered, and where that fails
    /// the function is left without a body and the error is handed back beside it.
    pub fn translate_function(
        self,
        def_id: FunDeclId,
        item_meta: ItemMeta,
        name: String,
        generics: GenericParams,
        def: &MirDef,
    ) -> (r: Result<(GFunDecl<Graph>, Option<LowerError>), LowerError>)
        requires
            def.callable(),
        ensures
            match r {
                Err(e) => def.kind is Ctor && e == LowerError::Constructor,
                Ok((decl, error)) => {
                    &&& !(def.kind is Ctor)
                    &&& decl.def_id == def_id
                    &&& decl.item_meta == item_meta
                    &&& decl.name == name
                    &&& def.signed(generics, decl.signature)
                    &&& kind_of(def.assoc_item, decl.kind)
                    &&& match decl.body {
                        Some(out) => {
                            &&& error is None
                            &&& !declares_without_default(decl.kind)
                            &&& !def.opaque
                            &&& def.body is Some
                            &&& lowers_to(
                                def.body->0,
                                self.mir_level,
                                decl.signature.inputs@.len() as usize,
                                out,
                            )
                        },
                        None => match error {
                            Some(e) => !declares_without_default(decl.kind) && !def.opaque && def.body
                                is Some && body_fails(def.body->0, self.mir_level, e),
                            None => declares_without_default(decl.kind) || def.opaque || def.body
                                is None,
                        },
                    }
                },
            },
    {
        let kind = get_item_kind(&def.assoc_item);
        let is_trait_method_decl_without_default = match &kind {
            ItemKind::Regular => false,
            ItemKind::TraitImpl { .. } => false,
            ItemKind::TraitDecl { has_default, .. } => !*has_default,
        };
        let signature = match translate_function_signature(generics, def) {
            Ok(signature) => signature,
            Err(e) => {
                return Err(e);
            },
        };
        let (body, error) = if !is_trait_method_decl_without_default {
            match translate_body(def, signature.inputs.len(), self.mir_level) {
                Ok(body) => (body, None),
                Err(e) => (None, Some(e)),
            }
        } else {
            (None, None)
        };
        Ok((GFunDecl { def_id, item_meta, name, signature, kind, body }, error))
    }

    /// Lowers a constant or a static. Its body is lowered like that of a function
    /// without arguments, and where that fails the global is left without a body and
    /// the error is handed back beside it.
    pub fn translate_global(
        self,
        def_id: GlobalDeclId,
        item_meta: ItemMeta,
        name: String,
        generics: GenericParams,
        def: &MirDef,
    ) -> (r: (GGlobalDecl<Graph>, Option<LowerError>))
        requires
            def.constant(),
        ensures
            r.0.def_id == def_id,
            r.0.item_meta == item_meta,
            r.0.name == name,
            r.0.generics == generics,
            r.0.ty == def.constant_ty(),
            kind_of(def.assoc_item, r.0.kind),
            match r.0.body {
                Some(out) => r.1 is None && !def.opaque && def.body is Some && lowers_to(
                    def.body->0,
                    self.mir_level,
                    0,
                    out,
                ),
                None => match r.1 {
                    Some(e) => !def.opaque && def.body is Some && body_fails(def.body->0, self.mir_level, e),
                    None => def.opaque || def.body is None,
                },
            },
    {
        let kind = get_item_kind(&def.assoc_item);
        let ty = match &def.kind {
            MirDefKind::Const { ty } => *ty,
            MirDefKind::AssocConst { ty } => *ty,
            MirDefKind::Static { ty } => *ty,
            _ => unreached(),
        };
        let (body, error) = match translate_body(def, 0, self.mir_level) {
            Ok(body) => (body, None),
            Err(e) => (None, Some(e)),
        };
        (GGlobalDecl { def_id, item_meta, generics, name, ty, kind, body }, error)
    }
}

} // verus!
