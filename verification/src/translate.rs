//! From a body of blocks to a body of structured code.

use crate::analysis::analyze;
use crate::cycles::{cycle_blocks, lists_cycles};
use crate::gast::{
    check_locals_ordered, locals_ordered, GExprBody, GFunDecl, GGlobalDecl, Span, Var,
};
use crate::llbc::Tree;
use crate::structure::{frames, lemma_sequence_view, prepared, Scope};
use crate::ullbc::{
    first_shape_error, holds, shape_blocks, BlockId, Graph, RawBlock, ShapeError,
};
use crate::validate::GraphDefect;
use vstd::prelude::*;

verus! {

/// A graph as it is handed in.
#[derive(Debug)]
pub struct RawGraph {
    pub entry: BlockId,
    pub blocks: Vec<RawBlock>,
}

/// Why a body was not structured.
#[derive(Debug)]
pub enum StructureError {
    /// The locals table is out of order, or too short for the return value and the arguments.
    Locals,
    /// A block holds no terminator, or goes on after one.
    Shape(ShapeError),
    /// The graph is not well formed.
    Defect(GraphDefect),
    /// The control flow is irreducible: the blocks named, in rising order, are those
    /// that lie on a cycle of edges that are no back edges.
    Irreducible(Vec<BlockId>),
}

/// Whether `g` is the graph that the raw graph holds.
pub open spec fn shapes_to(raw: RawGraph, g: Graph) -> bool {
    &&& g.entry == raw.entry
    &&& g.blocks@.len() == raw.blocks@.len()
    &&& forall|i: int|
        0 <= i < raw.blocks@.len() ==> holds(#[trigger] g.blocks@[i], raw.blocks@[i].instructions@)
}

/// Whether a structured body is sound: the locals are in order, every local that the
/// tree names is in the table, and every `Break` and `Continue` names an open loop.
pub open spec fn body_sound(body: GExprBody<Tree>) -> bool {
    &&& locals_ordered(body.locals@, body.arg_count as int)
    &&& body.body@.locals_below(body.locals@.len() as int)
    &&& body.body@.levels_valid(0)
}

/// Whether `r` is what structuring gives for the graph: its tree where the graph is
/// reducible, else the blocks that lie on a cycle of edges that are no back edges.
pub open spec fn structure_gives(g: Graph, r: Result<Tree, Vec<BlockId>>) -> bool {
    match r {
        Ok(tree) => g.reducible() && tree@ == g.tree(),
        Err(blocks) => !g.reducible() && lists_cycles(g, blocks@),
    }
}

/// Two lists in rising order that hold the same numbers are the same list.
proof fn lemma_rising_lists_agree(a: Seq<BlockId>, b: Seq<BlockId>)
    requires
        forall|i: int, j: int| 0 <= i < j < a.len() ==> a[i] < a[j],
        forall|i: int, j: int| 0 <= i < j < b.len() ==> b[i] < b[j],
        forall|x: BlockId| a.contains(x) <==> b.contains(x),
    ensures
        a == b,
    decreases a.len(),
{
    if a.len() == 0 {
        if b.len() > 0 {
            assert(b.contains(b[0]));
        }
        assert(a =~= b);
    } else {
        let top = a.last();
        assert(a.contains(top));
        let k = choose|k: int| 0 <= k < b.len() && b[k] == top;
        if k < b.len() - 1 {
            assert(b.contains(b.last()));
            let i = choose|i: int| 0 <= i < a.len() && a[i] == b.last();
            assert(a[i] <= top);
        }
        let a0 = a.drop_last();
        let b0 = b.drop_last();
        assert forall|x: BlockId| a0.contains(x) <==> b0.contains(x) by {
            if a0.contains(x) {
                let i = choose|i: int| 0 <= i < a0.len() && a0[i] == x;
                assert(a[i] == x && x < top);
                assert(a.contains(x));
                let j = choose|j: int| 0 <= j < b.len() && b[j] == x;
                assert(b0[j] == x);
            }
            if b0.contains(x) {
                let j = choose|j: int| 0 <= j < b0.len() && b0[j] == x;
                assert(b[j] == x && x < top);
                assert(b.contains(x));
                let i = choose|i: int| 0 <= i < a.len() && a[i] == x;
                assert(a0[i] == x);
            }
        }
        lemma_rising_lists_agree(a0, b0);
        assert(a =~= a0.push(top));
        assert(b =~= b0.push(top));
    }
}

/// Structuring is a function of the graph: what it gives for a graph once, it gives
/// for that graph whenever it is asked, the same tree or the same list of blocks.
pub proof fn structuring_is_deterministic(
    g: Graph,
    first: Result<Tree, Vec<BlockId>>,
    second: Result<Tree, Vec<BlockId>>,
)
    requires
        structure_gives(g, first),
        structure_gives(g, second),
    ensures
        match (first, second) {
            (Ok(a), Ok(b)) => a@ == b@,
            (Err(a), Err(b)) => a@ == b@,
            _ => false,
        },
{
    match (first, second) {
        (Err(a), Err(b)) => {
            assert forall|x: BlockId| a@.contains(x) <==> b@.contains(x) by {
                if a@.contains(x) {
                    let i = choose|i: int| 0 <= i < a@.len() && a@[i] == x;
                    assert(g.on_forward_cycle(a@[i] as int));
                }
                if b@.contains(x) {
                    let i = choose|i: int| 0 <= i < b@.len() && b@[i] == x;
                    assert(g.on_forward_cycle(b@[i] as int));
                }
            }
            lemma_rising_lists_agree(a@, b@);
        },
        _ => {},
    }
}

/// Structures a graph. Succeeds exactly on the reducible graphs; on another it names
/// the blocks that lie on a cycle of edges that are no back edges.
pub fn structure(g: &Graph) -> (r: Result<Tree, Vec<BlockId>>)
    requires
        g.closed(),
    ensures
        structure_gives(*g, r),
{
    let a = analyze(g);
    if a.all_ranked() {
        proof {
            assert(prepared(*g, a));
            assert forall|x: int| 0 <= x < g.size() implies g.orderable(x) by {
                assert(g.has_rank(x, a.rank@[x] as nat));
                assert(g.placed_within(x, (a.rank@[x] + 1) as nat));
            }
        }
        let stack: Vec<Scope> = Vec::new();
        assert(frames(stack@) =~= seq![]);
        let items = g.build_block(&a, g.entry, &stack, None);
        proof {
            lemma_sequence_view(items);
        }
        Ok(Tree::Sequence(items))
    } else {
        proof {
            let y = choose|y: int| 0 <= y < a.rank@.len() && !(a.rank@[y] < a.rank@.len());
            assert(!g.orderable(y));
        }
        let blocks = cycle_blocks(g, &a);
        Err(blocks)
    }
}

/// Puts a structured tree together with the locals, the number of arguments and
/// what the source says of the body.
pub fn assemble(
    span: Span,
    arg_count: usize,
    locals: Vec<Var>,
    comments: Vec<(usize, Vec<String>)>,
    tree: Tree,
) -> (body: GExprBody<Tree>)
    requires
        locals_ordered(locals@, arg_count as int),
        tree@.locals_below(locals@.len() as int),
        tree@.levels_valid(0),
    ensures
        body_sound(body),
        body.span == span,
        body.arg_count == arg_count,
        body.locals == locals,
        body.comments == comments,
        body.body == tree,
{
    GExprBody { span, arg_count, locals, comments, body: tree }
}

/// Whether `r` is what structuring makes of the body. The locals are looked at
/// first, then the graph, then its control flow; a body of blocks that was put
/// together from statements and terminators has no defect of shape.
pub open spec fn structures_to(
    given: GExprBody<Graph>,
    r: Result<GExprBody<Tree>, StructureError>,
) -> bool {
    match r {
        Ok(body) => {
            &&& body_sound(body)
            &&& body.span == given.span
            &&& body.arg_count == given.arg_count
            &&& body.locals == given.locals
            &&& body.comments == given.comments
            &&& given.body.well_formed(given.locals@.len() as int)
            &&& given.body.reducible()
            &&& body.body@ == given.body.tree()
        },
        Err(StructureError::Locals) => !locals_ordered(given.locals@, given.arg_count as int),
        Err(StructureError::Shape(e)) => false,
        Err(StructureError::Defect(d)) => {
            &&& locals_ordered(given.locals@, given.arg_count as int)
            &&& given.body.has_defect(given.locals@.len() as int, d)
        },
        Err(StructureError::Irreducible(blocks)) => {
            &&& locals_ordered(given.locals@, given.arg_count as int)
            &&& given.body.well_formed(given.locals@.len() as int)
            &&& !given.body.reducible()
            &&& lists_cycles(given.body, blocks@)
        },
    }
}

/// Structures a body of blocks: checks the locals and the graph, reconstructs the
/// control flow and puts the result together with the locals.
pub fn structure_shaped(given: GExprBody<Graph>) -> (r: Result<GExprBody<Tree>, StructureError>)
    ensures
        structures_to(given, r),
{
    let GExprBody { span, arg_count, locals, comments, body: g } = given;
    if !check_locals_ordered(&locals, arg_count) {
        return Err(StructureError::Locals);
    }
    match g.check(locals.len()) {
        Some(d) => {
            return Err(StructureError::Defect(d));
        },
        None => {},
    }
    proof {
        assert(g.closed()) by {
            assert forall|c: int, k: int|
                0 <= c < g.size() && 0 <= k < g.succs(c).len() implies #[trigger] g.succs(c)[k]
                < g.size() by {
                assert(g.blocks@[c].terminator.targets_below(g.size()));
            }
        }
    }
    match structure(&g) {
        Ok(tree) => {
            proof {
                g.tree_levels_valid();
                g.tree_locals_below(locals@.len() as int);
            }
            Ok(assemble(span, arg_count, locals, comments, tree))
        },
        Err(blocks) => Err(StructureError::Irreducible(blocks)),
    }
}

/// Structures a body: parts the blocks into statements and terminators, checks the
/// locals and the graph, reconstructs the control flow and puts the result together
/// with the locals.
pub fn structure_body(raw: GExprBody<RawGraph>) -> (r: Result<GExprBody<Tree>, StructureError>)
    ensures
        match r {
            Ok(body) => {
                &&& body_sound(body)
                &&& body.span == raw.span
                &&& body.arg_count == raw.arg_count
                &&& body.locals == raw.locals
                &&& body.comments == raw.comments
                &&& exists|g: Graph|
                    {
                        &&& #[trigger] shapes_to(raw.body, g)
                        &&& g.well_formed(raw.locals@.len() as int)
                        &&& g.reducible()
                        &&& body.body@ == g.tree()
                    }
            },
            Err(StructureError::Locals) => {
                &&& first_shape_error(raw.body.blocks@, 0) is None
                &&& !locals_ordered(raw.locals@, raw.arg_count as int)
            },
            Err(StructureError::Shape(e)) => first_shape_error(raw.body.blocks@, 0) == Some(e),
            Err(StructureError::Defect(d)) => {
                &&& locals_ordered(raw.locals@, raw.arg_count as int)
                &&& exists|g: Graph| #[trigger]
                    shapes_to(raw.body, g) && g.has_defect(raw.locals@.len() as int, d)
            },
            Err(StructureError::Irreducible(blocks)) => {
                &&& locals_ordered(raw.locals@, raw.arg_count as int)
                &&& exists|g: Graph|
                    {
                        &&& #[trigger] shapes_to(raw.body, g)
                        &&& g.well_formed(raw.locals@.len() as int)
                        &&& !g.reducible()
                        &&& lists_cycles(g, blocks@)
                    }
            },
        },
{
    let GExprBody { span, arg_count, locals, comments, body } = raw;
    let RawGraph { entry, blocks } = body;
    let shaped = match shape_blocks(blocks) {
        Ok(shaped) => shaped,
        Err(e) => {
            return Err(StructureError::Shape(e));
        },
    };
    let g = Graph { entry, blocks: shaped };
    assert(shapes_to(raw.body, g));
    structure_shaped(GExprBody { span, arg_count, locals, comments, body: g })
}

/// Structures the body of a function, where it has one. Where structuring fails, the
/// function is left without a body and the error is handed back beside it.
pub fn translate_function(decl: GFunDecl<Graph>) -> (r: (GFunDecl<Tree>, Option<StructureError>))
    ensures
        r.0.def_id == decl.def_id,
        r.0.item_meta == decl.item_meta,
        r.0.name == decl.name,
        r.0.signature == decl.signature,
        r.0.kind == decl.kind,
        match decl.body {
            None => r.0.body is None && r.1 is None,
            Some(given) => match r.1 {
                None => r.0.body is Some && structures_to(given, Ok(r.0.body->0)),
                Some(e) => r.0.body is None && structures_to(given, Err(e)),
            },
        },
{
    let GFunDecl { def_id, item_meta, name, signature, kind, body } = decl;
    let (body, error) = match body {
        None => (None, None),
        Some(b) => match structure_shaped(b) {
            Ok(out) => (Some(out), None),
            Err(e) => (None, Some(e)),
        },
    };
    (GFunDecl { def_id, item_meta, name, signature, kind, body }, error)
}

/// Structures the body of a global, where it has one. Where structuring fails, the
/// global is left without a body and the error is handed back beside it.
pub fn translate_global(decl: GGlobalDecl<Graph>) -> (r: (
    GGlobalDecl<Tree>,
    Option<StructureError>,
))
    ensures
        r.0.def_id == decl.def_id,
        r.0.item_meta == decl.item_meta,
        r.0.name == decl.name,
        r.0.generics == decl.generics,
        r.0.ty == decl.ty,
        r.0.kind == decl.kind,
        match decl.body {
            None => r.0.body is None && r.1 is None,
            Some(given) => match r.1 {
                None => r.0.body is Some && structures_to(given, Ok(r.0.body->0)),
                Some(e) => r.0.body is None && structures_to(given, Err(e)),
            },
        },
{
    let GGlobalDecl { def_id, item_meta, generics, name, ty, kind, body } = decl;
    let (body, error) = match body {
        None => (None, None),
        Some(b) => match structure_shaped(b) {
            Ok(out) => (Some(out), None),
            Err(e) => (None, Some(e)),
        },
    };
    (GGlobalDecl { def_id, item_meta, generics, name, ty, kind, body }, error)
}

} // verus!
