//! The unstructured form of a procedure: basic blocks that end in
//! terminators, and the graph that their targets span.

use crate::expressions::{check_operands_below, operands_below, share};
pub use crate::expressions::{
    FnOperand, FunDeclId, Operand, Place, Rvalue, VarId, VariantId,
};
use crate::gast::Span;
use crate::values::{IntegerTy, ScalarValue};
use std::sync::Arc;
use vstd::prelude::*;

verus! {

/// A block is known by its position in the graph's block list.
pub type BlockId = usize;

/// A check at run time: a run that finds `cond` other than `expected` stops.
#[derive(Clone, Debug, PartialEq, Eq)]
pub struct Assert {
    pub cond: Operand,
    pub expected: bool,
}

/// The generic arguments of a call.
#[derive(Clone, Debug, PartialEq, Eq)]
pub struct GenericArgs {
    /// How many regions are given.
    pub regions: usize,
    pub types: Vec<crate::types::Ty>,
    /// How many constants are given.
    pub const_generics: usize,
}

/// A call: what is called, with what, and where the result goes.
#[derive(Clone, Debug, PartialEq, Eq)]
pub struct Call {
    pub func: FnOperand,
    /// For the call of a method of a trait, the generic arguments of the trait and
    /// of the method.
    pub trait_and_method_generic_args: Option<GenericArgs>,
    pub args: Vec<Operand>,
    pub dest: Place,
}

/// What a statement does.
#[derive(Clone, Debug, PartialEq, Eq)]
pub enum RawStatement {
    Assign(Place, Rvalue),
    FakeRead(Place),
    SetDiscriminant(Place, VariantId),
    StorageDead(VarId),
    Deinit(Place),
    Drop(Place),
    Assert(Assert),
    Call(Call),
}

impl RawStatement {
    /// Whether every local that the statement names lies below `n`.
    pub open spec fn locals_below(self, n: int) -> bool {
        match self {
            RawStatement::Assign(p, v) => p.locals_below(n) && v.locals_below(n),
            RawStatement::FakeRead(p) => p.locals_below(n),
            RawStatement::SetDiscriminant(p, _) => p.locals_below(n),
            RawStatement::StorageDead(v) => v.index < n,
            RawStatement::Deinit(p) => p.locals_below(n),
            RawStatement::Drop(p) => p.locals_below(n),
            RawStatement::Assert(a) => a.cond.locals_below(n),
            RawStatement::Call(c) => c.func.locals_below(n) && operands_below(c.args@, n)
                && c.dest.locals_below(n),
        }
    }

    pub fn check_locals_below(&self, n: usize) -> (b: bool)
        ensures
            b == self.locals_below(n as int),
    {
        match self {
            RawStatement::Assign(p, v) => p.check_locals_below(n) && v.check_locals_below(n),
            RawStatement::FakeRead(p) => p.check_locals_below(n),
            RawStatement::SetDiscriminant(p, _) => p.check_locals_below(n),
            RawStatement::StorageDead(v) => v.index < n,
            RawStatement::Deinit(p) => p.check_locals_below(n),
            RawStatement::Drop(p) => p.check_locals_below(n),
            RawStatement::Assert(a) => a.cond.check_locals_below(n),
            RawStatement::Call(c) => c.func.check_locals_below(n) && check_operands_below(
                &c.args,
                n,
            ) && c.dest.check_locals_below(n),
        }
    }
}

/// A leaf effect, with the stretch of the source that it comes from. The structuring
/// passes carry statements along and never look inside, but for the locals they name;
/// what a statement does is shared between the graph and the tree.
#[derive(Clone, Debug, PartialEq, Eq)]
pub struct Statement {
    pub span: Span,
    pub content: Arc<RawStatement>,
}

impl Statement {
    /// The statement that does `content`.
    pub fn new(span: Span, content: RawStatement) -> (s: Statement)
        ensures
            s.span == span,
            *s.content == content,
    {
        Statement { span, content: Arc::new(content) }
    }

    /// Whether every local that the statement names lies below `n`.
    pub open spec fn locals_below(self, n: int) -> bool {
        self.content.locals_below(n)
    }

    pub fn check_locals_below(&self, n: usize) -> (b: bool)
        ensures
            b == self.locals_below(n as int),
    {
        self.content.check_locals_below(n)
    }

    /// A second statement equal to this one, which shares what it does.
    pub fn duplicate(&self) -> (r: Statement)
        ensures
            r == *self,
    {
        Statement { span: self.span, content: share(&self.content) }
    }
}

/// Why a procedure stops without returning.
#[derive(Debug)]
pub enum AbortKind {
    /// A trap on undefined behaviour.
    UndefinedBehavior,
    /// A call that never returns, with the name of what was called.
    Panic(String),
}

impl AbortKind {
    /// A second value equal to this one.
    pub fn duplicate(&self) -> (r: AbortKind)
        ensures
            r == *self,
    {
        match self {
            AbortKind::UndefinedBehavior => AbortKind::UndefinedBehavior,
            AbortKind::Panic(name) => AbortKind::Panic(name.clone()),
        }
    }
}

/// Where a branch may go.
#[derive(Debug)]
pub enum SwitchTargets {
    /// A two-way split on a boolean: the block for `true`, then the block for `false`.
    If(BlockId, BlockId),
    /// A split on an integer: the arms in their order, then the block taken when no arm matches.
    SwitchInt(IntegerTy, Vec<(ScalarValue, BlockId)>, BlockId),
}

impl SwitchTargets {
    /// The blocks that the branch may go to, in the order of the arms, the default last.
    pub open spec fn targets(self) -> Seq<BlockId> {
        match self {
            SwitchTargets::If(a, b) => seq![a, b],
            SwitchTargets::SwitchInt(_, arms, otherwise) => Seq::new(
                arms@.len(),
                |i: int| arms@[i].1,
            ).push(otherwise),
        }
    }

    /// The values of the arms, in their order.
    pub open spec fn values(self) -> Seq<ScalarValue> {
        match self {
            SwitchTargets::If(a, b) => seq![],
            SwitchTargets::SwitchInt(_, arms, otherwise) => Seq::new(
                arms@.len(),
                |i: int| arms@[i].0,
            ),
        }
    }
}

/// The control transfer that ends a block.
#[derive(Debug)]
pub enum Terminator {
    Goto { target: BlockId },
    Switch { discr: Operand, targets: SwitchTargets },
    Return,
    Abort(AbortKind),
}

impl Terminator {
    /// The blocks that control may reach next, in the order of the arms.
    pub open spec fn successors(self) -> Seq<BlockId> {
        match self {
            Terminator::Goto { target } => seq![target],
            Terminator::Switch { discr, targets } => targets.targets(),
            Terminator::Return => seq![],
            Terminator::Abort(_) => seq![],
        }
    }

    /// Whether every local that the terminator names lies below `n`.
    pub open spec fn locals_below(self, n: int) -> bool {
        match self {
            Terminator::Switch { discr, targets } => discr.locals_below(n),
            _ => true,
        }
    }

    /// The successors as a list.
    pub fn successor_list(&self) -> (r: Vec<BlockId>)
        ensures
            r@ == self.successors(),
    {
        match self {
            Terminator::Goto { target } => {
                let r = vec![*target];
                assert(r@ =~= self.successors());
                r
            },
            Terminator::Switch { discr, targets } => {
                match targets {
                    SwitchTargets::If(a, b) => {
                        let r = vec![*a, *b];
                        assert(r@ =~= self.successors());
                        r
                    },
                    SwitchTargets::SwitchInt(_, arms, otherwise) => {
                        let mut r: Vec<BlockId> = Vec::new();
                        let mut i: usize = 0;
                        while i < arms.len()
                            invariant
                                i <= arms.len(),
                                r@ == Seq::new(i as nat, |k: int| arms@[k].1),
                            decreases arms.len() - i,
                        {
                            r.push(arms[i].1);
                            i = i + 1;
                            assert(r@ =~= Seq::new(i as nat, |k: int| arms@[k].1));
                        }
                        r.push(*otherwise);
                        r
                    },
                }
            },
            Terminator::Return => {
                let r: Vec<BlockId> = Vec::new();
                assert(r@ =~= self.successors());
                r
            },
            Terminator::Abort(_) => {
                let r: Vec<BlockId> = Vec::new();
                assert(r@ =~= self.successors());
                r
            },
        }
    }
}

/// A block: statements in their order, then one terminator.
#[derive(Debug)]
pub struct BlockData {
    pub statements: Vec<Statement>,
    pub terminator: Terminator,
    /// Where the terminator stands in the source.
    pub terminator_span: Span,
}

/// The blocks of one procedure and the block where it starts.
#[derive(Debug)]
pub struct Graph {
    pub entry: BlockId,
    pub blocks: Vec<BlockData>,
}

impl Graph {
    /// The number of blocks.
    pub open spec fn size(self) -> int {
        self.blocks@.len() as int
    }

    /// The successors of block `b`.
    pub open spec fn succs(self, b: int) -> Seq<BlockId> {
        self.blocks@[b].terminator.successors()
    }

    /// Whether control may pass from `u` straight to `v`.
    pub open spec fn edge(self, u: int, v: int) -> bool {
        0 <= u < self.size() && 0 <= v < self.size() && self.succs(u).contains(v as usize)
    }

    /// The entry and every target name a block of the graph.
    pub open spec fn closed(self) -> bool {
        &&& self.entry < self.size()
        &&& forall|b: int, k: int|
            0 <= b < self.size() && 0 <= k < self.succs(b).len() ==> #[trigger] self.succs(
                b,
            )[k] < self.size()
    }

    /// Whether every local named in the graph lies below `n`.
    pub open spec fn locals_below(self, n: int) -> bool {
        forall|b: int|
            0 <= b < self.size() ==> {
                &&& (#[trigger] self.blocks@[b]).terminator.locals_below(n)
                &&& forall|k: int|
                    0 <= k < self.blocks@[b].statements@.len()
                        ==> (#[trigger] self.blocks@[b].statements@[k]).locals_below(n)
            }
    }

    /// The successors of every block, as lists.
    pub fn successor_lists(&self) -> (adj: Vec<Vec<BlockId>>)
        ensures
            adj@.len() == self.size(),
            forall|b: int| 0 <= b < self.size() ==> (#[trigger] adj@[b])@ == self.succs(b),
    {
        let mut adj: Vec<Vec<BlockId>> = Vec::new();
        let mut b: usize = 0;
        while b < self.blocks.len()
            invariant
                b <= self.blocks.len(),
                adj@.len() == b,
                forall|c: int| 0 <= c < b ==> (#[trigger] adj@[c])@ == self.succs(c),
            decreases self.blocks.len() - b,
        {
            let l = self.blocks[b].terminator.successor_list();
            adj.push(l);
            b = b + 1;
        }
        adj
    }
}

/// One entry of a block as it is handed in: a statement or a terminator.
#[derive(Debug)]
pub enum Instruction {
    Statement(Statement),
    /// A terminator, with the place where it stands in the source.
    Terminator(Span, Terminator),
}

/// A block as it is handed in: instructions of which the last, and only the last,
/// is to be a terminator.
#[derive(Debug)]
pub struct RawBlock {
    pub instructions: Vec<Instruction>,
}

/// What is wrong with the shape of a block.
#[derive(Clone, Copy, Debug, PartialEq, Eq, Structural)]
pub enum ShapeError {
    /// The block holds no terminator.
    MissingTerminator(BlockId),
    /// Something follows the first terminator of the block.
    StatementAfterTerminator(BlockId),
}

/// The place of the first terminator at or after `k`, if there is one.
pub open spec fn first_terminator(ins: Seq<Instruction>, k: int) -> Option<int>
    decreases ins.len() - k,
{
    if k < 0 || k >= ins.len() {
        None
    } else if ins[k] is Terminator {
        Some(k)
    } else {
        first_terminator(ins, k + 1)
    }
}

/// Whether the instructions are statements followed by one terminator.
pub open spec fn shaped(ins: Seq<Instruction>) -> bool {
    first_terminator(ins, 0) == Some(ins.len() - 1)
}

/// Whether the block holds the instructions: the statements in their order, then the terminator.
pub open spec fn holds(block: BlockData, ins: Seq<Instruction>) -> bool {
    &&& ins.len() == block.statements@.len() + 1
    &&& forall|i: int|
        0 <= i < block.statements@.len() ==> #[trigger] ins[i] == Instruction::Statement(
            block.statements@[i],
        )
    &&& ins[ins.len() - 1] == Instruction::Terminator(block.terminator_span, block.terminator)
}

/// What is wrong with the shape of block `b`, if anything.
pub open spec fn shape_error(ins: Seq<Instruction>, b: BlockId) -> Option<ShapeError> {
    match first_terminator(ins, 0) {
        None => Some(ShapeError::MissingTerminator(b)),
        Some(i) => if i == ins.len() - 1 {
            None
        } else {
            Some(ShapeError::StatementAfterTerminator(b))
        },
    }
}

/// Before the first terminator stand statements only.
pub proof fn lemma_first_terminator(ins: Seq<Instruction>, k: int)
    requires
        0 <= k,
    ensures
        match first_terminator(ins, k) {
            Some(i) => k <= i < ins.len() && ins[i] is Terminator && forall|j: int|
                k <= j < i ==> ins[j] is Statement,
            None => forall|j: int| k <= j < ins.len() ==> ins[j] is Statement,
        },
    decreases ins.len() - k,
{
    if k < ins.len() && !(ins[k] is Terminator) {
        lemma_first_terminator(ins, k + 1);
    }
}

/// Finds the first terminator of a block.
pub fn find_terminator(ins: &Vec<Instruction>) -> (r: Option<usize>)
    ensures
        match r {
            Some(i) => first_terminator(ins@, 0) == Some(i as int),
            None => first_terminator(ins@, 0) is None,
        },
{
    let mut k: usize = 0;
    while k < ins.len()
        invariant
            k <= ins@.len(),
            first_terminator(ins@, 0) == first_terminator(ins@, k as int),
        decreases ins@.len() - k,
    {
        match &ins[k] {
            Instruction::Terminator(..) => {
                return Some(k);
            },
            Instruction::Statement(_) => {},
        }
        k = k + 1;
    }
    None
}

/// Parts a block into its statements and its terminator, or says what is wrong with it.
pub fn shape_block(raw: RawBlock, b: BlockId) -> (r: Result<BlockData, ShapeError>)
    ensures
        match r {
            Ok(block) => shape_error(raw.instructions@, b) is None && holds(
                block,
                raw.instructions@,
            ),
            Err(e) => shape_error(raw.instructions@, b) == Some(e),
        },
{
    let found = find_terminator(&raw.instructions);
    let n = raw.instructions.len();
    proof {
        lemma_first_terminator(raw.instructions@, 0);
    }
    match found {
        None => Err(ShapeError::MissingTerminator(b)),
        Some(i) => {
            if i + 1 != n {
                return Err(ShapeError::StatementAfterTerminator(b));
            }
            let mut ins = raw.instructions;
            let ghost all = ins@;
            let last = ins.pop();
            let mut statements: Vec<Statement> = Vec::new();
            let mut k: usize = 0;
            while k < ins.len()
                invariant
                    k <= ins@.len(),
                    ins@.len() + 1 == all.len(),
                    last == Some(all[all.len() - 1]),
                    all[all.len() - 1] is Terminator,
                    forall|j: int| 0 <= j < ins@.len() ==> ins@[j] == all[j] && all[j] is Statement,
                    statements@.len() == k,
                    forall|j: int|
                        0 <= j < k ==> #[trigger] all[j] == Instruction::Statement(statements@[j]),
                decreases ins@.len() - k,
            {
                match &ins[k] {
                    Instruction::Statement(s) => {
                        statements.push(s.duplicate());
                    },
                    Instruction::Terminator(..) => {
                        assert(ins@[k as int] == all[k as int] && all[k as int] is Statement);
                    },
                }
                k = k + 1;
            }
            match last {
                Some(Instruction::Terminator(span, t)) => Ok(
                    BlockData { statements, terminator: t, terminator_span: span },
                ),
                _ => {
                    assert(false);
                    Err(ShapeError::MissingTerminator(b))
                },
            }
        },
    }
}

/// The first block with a wrong shape and what is wrong with it, if any block has one.
pub open spec fn first_shape_error(raw: Seq<RawBlock>, k: int) -> Option<ShapeError>
    decreases raw.len() - k,
{
    if k < 0 || k >= raw.len() {
        None
    } else if shape_error(raw[k].instructions@, k as usize) is Some {
        shape_error(raw[k].instructions@, k as usize)
    } else {
        first_shape_error(raw, k + 1)
    }
}

/// Parts every block into its statements and its terminator. Fails on the first
/// block that holds no terminator or goes on after one.
pub fn shape_blocks(raw: Vec<RawBlock>) -> (r: Result<Vec<BlockData>, ShapeError>)
    ensures
        match r {
            Ok(blocks) => {
                &&& first_shape_error(raw@, 0) is None
                &&& blocks@.len() == raw@.len()
                &&& forall|i: int|
                    0 <= i < raw@.len() ==> holds(#[trigger] blocks@[i], raw@[i].instructions@)
            },
            Err(e) => first_shape_error(raw@, 0) == Some(e),
        },
{
    let mut rest = raw;
    let ghost given = raw@;
    let n = rest.len();
    let mut blocks: Vec<BlockData> = Vec::new();
    let mut b: usize = 0;
    while b < n
        invariant
            given == raw@,
            n == given.len(),
            rest@.len() == n,
            b <= n,
            forall|i: int| b <= i < n ==> rest@[i] == given[i],
            first_shape_error(given, 0) == first_shape_error(given, b as int),
            blocks@.len() == b,
            forall|i: int| 0 <= i < b ==> holds(#[trigger] blocks@[i], given[i].instructions@),
        decreases n - b,
    {
        let mut taken = RawBlock { instructions: Vec::new() };
        rest.set_and_swap(b, &mut taken);
        match shape_block(taken, b) {
            Ok(block) => {
                blocks.push(block);
            },
            Err(e) => {
                return Err(e);
            },
        }
        b = b + 1;
    }
    Ok(blocks)
}

} // verus!
