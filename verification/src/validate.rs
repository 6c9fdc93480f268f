//! What a graph must satisfy before it is analysed, and the check for it.

use crate::ullbc::{BlockId, Graph, SwitchTargets, Terminator};
use crate::values::ScalarValue;
use vstd::prelude::*;

verus! {

/// What is wrong with a graph.
#[derive(Clone, Copy, Debug, PartialEq, Eq, Structural)]
pub enum GraphDefect {
    /// The entry names no block.
    NoEntry,
    /// A terminator of the block names a target that is no block.
    DanglingTarget(BlockId),
    /// Two arms of the block's branch have the same value.
    RepeatedArm(BlockId),
    /// The block names a local that the locals table does not hold.
    DanglingLocal(BlockId),
    /// Control cannot reach the block from the entry.
    UnreachableBlock(BlockId),
}

impl Terminator {
    /// Whether the arms of the terminator have values that differ pairwise.
    pub open spec fn arms_distinct(self) -> bool {
        match self {
            Terminator::Switch { discr, targets } => match targets {
                SwitchTargets::SwitchInt(_, arms, _) => distinct_values(arms@),
                _ => true,
            },
            _ => true,
        }
    }

    /// Whether every target lies below `n`.
    pub open spec fn targets_below(self, n: int) -> bool {
        forall|k: int| 0 <= k < self.successors().len() ==> #[trigger] self.successors()[k] < n
    }

    pub fn check_arms_distinct(&self) -> (b: bool)
        ensures
            b == self.arms_distinct(),
    {
        match self {
            Terminator::Switch { discr, targets: SwitchTargets::SwitchInt(ty, arms, otherwise) } => {
                let mut j: usize = 0;
                while j < arms.len()
                    invariant
                        *self == (Terminator::Switch {
                            discr: *discr,
                            targets: SwitchTargets::SwitchInt(*ty, *arms, *otherwise),
                        }),
                        j <= arms@.len(),
                        forall|p: int, q: int|
                            0 <= p < q < j ==> (#[trigger] arms@[p]).0 != (#[trigger] arms@[q]).0,
                    decreases arms@.len() - j,
                {
                    let mut i: usize = 0;
                    while i < j
                        invariant
                            *self == (Terminator::Switch {
                                discr: *discr,
                                targets: SwitchTargets::SwitchInt(*ty, *arms, *otherwise),
                            }),
                            j < arms@.len(),
                            i <= j,
                            forall|p: int| 0 <= p < i ==> (#[trigger] arms@[p]).0 != arms@[j as int].0,
                        decreases j - i,
                    {
                        if same_scalar(&arms[i].0, &arms[j].0) {
                            assert((arms@[i as int]).0 == (arms@[j as int]).0);
                            return false;
                        }
                        i = i + 1;
                    }
                    j = j + 1;
                }
                true
            },
            _ => true,
        }
    }

    pub fn check_targets_below(&self, n: usize) -> (b: bool)
        ensures
            b == self.targets_below(n as int),
    {
        let list = self.successor_list();
        let mut k: usize = 0;
        while k < list.len()
            invariant
                list@ == self.successors(),
                k <= list@.len(),
                forall|i: int| 0 <= i < k ==> #[trigger] self.successors()[i] < n,
            decreases list@.len() - k,
        {
            if !(list[k] < n) {
                return false;
            }
            k = k + 1;
        }
        true
    }

    pub fn check_locals_below(&self, n: usize) -> (b: bool)
        ensures
            b == self.locals_below(n as int),
    {
        match self {
            Terminator::Switch { discr, targets } => discr.check_locals_below(n),
            _ => true,
        }
    }
}

/// Whether the values of the arms differ pairwise.
pub open spec fn distinct_values(arms: Seq<(ScalarValue, BlockId)>) -> bool {
    forall|i: int, j: int|
        0 <= i < j < arms.len() ==> (#[trigger] arms[i]).0 != (#[trigger] arms[j]).0
}

/// Whether two scalars are the same.
pub fn same_scalar(a: &ScalarValue, b: &ScalarValue) -> (r: bool)
    ensures
        r == (*a == *b),
{
    match (a, b) {
        (ScalarValue::Isize(x), ScalarValue::Isize(y)) => *x == *y,
        (ScalarValue::I8(x), ScalarValue::I8(y)) => *x == *y,
        (ScalarValue::I16(x), ScalarValue::I16(y)) => *x == *y,
        (ScalarValue::I32(x), ScalarValue::I32(y)) => *x == *y,
        (ScalarValue::I64(x), ScalarValue::I64(y)) => *x == *y,
        (ScalarValue::I128(x), ScalarValue::I128(y)) => *x == *y,
        (ScalarValue::Usize(x), ScalarValue::Usize(y)) => *x == *y,
        (ScalarValue::U8(x), ScalarValue::U8(y)) => *x == *y,
        (ScalarValue::U16(x), ScalarValue::U16(y)) => *x == *y,
        (ScalarValue::U32(x), ScalarValue::U32(y)) => *x == *y,
        (ScalarValue::U64(x), ScalarValue::U64(y)) => *x == *y,
        (ScalarValue::U128(x), ScalarValue::U128(y)) => *x == *y,
        _ => false,
    }
}

impl Graph {
    /// Whether block `b` names only locals below `n`.
    pub open spec fn block_locals_below(self, b: int, n: int) -> bool {
        &&& self.blocks@[b].terminator.locals_below(n)
        &&& forall|k: int|
            0 <= k < self.blocks@[b].statements@.len() ==> (
            #[trigger] self.blocks@[b].statements@[k]).locals_below(n)
    }

    /// Whether the graph can be analysed and structured with a table of `locals` locals:
    /// entry and targets name blocks, the arms of a branch differ in value, the locals
    /// named are in the table, and control reaches every block.
    pub open spec fn well_formed(self, locals: int) -> bool {
        &&& self.entry < self.size()
        &&& forall|b: int|
            0 <= b < self.size() ==> (#[trigger] self.blocks@[b]).terminator.targets_below(
                self.size(),
            )
        &&& forall|b: int|
            0 <= b < self.size() ==> (#[trigger] self.blocks@[b]).terminator.arms_distinct()
        &&& forall|b: int| 0 <= b < self.size() ==> #[trigger] self.block_locals_below(b, locals)
        &&& forall|b: int| 0 <= b < self.size() ==> #[trigger] self.reachable(b)
    }

    /// Whether `d` is what is wrong with the graph: the first thing in the order of the
    /// kinds, and for its kind the first block.
    pub open spec fn has_defect(self, locals: int, d: GraphDefect) -> bool {
        match d {
            GraphDefect::NoEntry => self.entry >= self.size(),
            GraphDefect::DanglingTarget(b) => {
                &&& self.entry < self.size()
                &&& b < self.size()
                &&& !self.blocks@[b as int].terminator.targets_below(self.size())
                &&& forall|c: int|
                    0 <= c < b ==> (#[trigger] self.blocks@[c]).terminator.targets_below(
                        self.size(),
                    )
            },
            GraphDefect::RepeatedArm(b) => {
                &&& self.closed()
                &&& b < self.size()
                &&& !self.blocks@[b as int].terminator.arms_distinct()
                &&& forall|c: int|
                    0 <= c < b ==> (#[trigger] self.blocks@[c]).terminator.arms_distinct()
            },
            GraphDefect::DanglingLocal(b) => {
                &&& self.closed()
                &&& forall|c: int|
                    0 <= c < self.size() ==> (#[trigger] self.blocks@[c]).terminator.arms_distinct()
                &&& b < self.size()
                &&& !self.block_locals_below(b as int, locals)
                &&& forall|c: int| 0 <= c < b ==> #[trigger] self.block_locals_below(c, locals)
            },
            GraphDefect::UnreachableBlock(b) => {
                &&& self.closed()
                &&& forall|c: int|
                    0 <= c < self.size() ==> (#[trigger] self.blocks@[c]).terminator.arms_distinct()
                &&& forall|c: int|
                    0 <= c < self.size() ==> #[trigger] self.block_locals_below(c, locals)
                &&& b < self.size()
                &&& !self.reachable(b as int)
                &&& forall|c: int| 0 <= c < b ==> #[trigger] self.reachable(c)
            },
        }
    }

    /// Whether block `b` names only locals below `n`.
    pub fn check_block_locals(&self, b: usize, n: usize) -> (r: bool)
        requires
            b < self.size(),
        ensures
            r == self.block_locals_below(b as int, n as int),
    {
        if !self.blocks[b].terminator.check_locals_below(n) {
            return false;
        }
        let stmts = &self.blocks[b].statements;
        let mut k: usize = 0;
        while k < stmts.len()
            invariant
                b < self.size(),
                *stmts == self.blocks@[b as int].statements,
                k <= stmts@.len(),
                forall|i: int| 0 <= i < k ==> (#[trigger] stmts@[i]).locals_below(n as int),
            decreases stmts@.len() - k,
        {
            if !stmts[k].check_locals_below(n) {
                return false;
            }
            k = k + 1;
        }
        true
    }

    /// Says what is wrong with the graph, if anything is.
    pub fn check(&self, locals: usize) -> (r: Option<GraphDefect>)
        ensures
            match r {
                None => self.well_formed(locals as int),
                Some(d) => self.has_defect(locals as int, d),
            },
    {
        let n = self.blocks.len();
        if self.entry >= n {
            return Some(GraphDefect::NoEntry);
        }
        let mut b: usize = 0;
        while b < n
            invariant
                n == self.size(),
                self.entry < n,
                b <= n,
                forall|c: int|
                    0 <= c < b ==> (#[trigger] self.blocks@[c]).terminator.targets_below(n as int),
            decreases n - b,
        {
            if !self.blocks[b].terminator.check_targets_below(n) {
                return Some(GraphDefect::DanglingTarget(b));
            }
            b = b + 1;
        }
        proof {
            assert(self.closed()) by {
                assert forall|c: int, k: int|
                    0 <= c < self.size() && 0 <= k < self.succs(c).len() implies #[trigger] self.succs(
                    c,
                )[k] < self.size() by {
                    assert(self.blocks@[c].terminator.targets_below(n as int));
                }
            }
        }
        b = 0;
        while b < n
            invariant
                n == self.size(),
                b <= n,
                self.closed(),
                forall|c: int| 0 <= c < b ==> (#[trigger] self.blocks@[c]).terminator.arms_distinct(),
            decreases n - b,
        {
            if !self.blocks[b].terminator.check_arms_distinct() {
                return Some(GraphDefect::RepeatedArm(b));
            }
            b = b + 1;
        }
        b = 0;
        while b < n
            invariant
                n == self.size(),
                b <= n,
                self.closed(),
                forall|c: int| 0 <= c < n ==> (#[trigger] self.blocks@[c]).terminator.arms_distinct(),
                forall|c: int| 0 <= c < b ==> #[trigger] self.block_locals_below(c, locals as int),
            decreases n - b,
        {
            if !self.check_block_locals(b, locals) {
                return Some(GraphDefect::DanglingLocal(b));
            }
            b = b + 1;
        }
        let succs = self.successor_lists();
        proof {
            self.lemma_successor_lists_match(succs@);
        }
        let marks = self.reachable_blocks(&succs);
        b = 0;
        while b < n
            invariant
                n == self.size(),
                b <= n,
                self.closed(),
                marks@.len() == n,
                forall|c: int| 0 <= c < n ==> marks@[c] == self.reachable(c),
                forall|c: int| 0 <= c < n ==> (#[trigger] self.blocks@[c]).terminator.arms_distinct(),
                forall|c: int| 0 <= c < n ==> #[trigger] self.block_locals_below(c, locals as int),
                forall|c: int| 0 <= c < b ==> #[trigger] self.reachable(c),
            decreases n - b,
        {
            if !marks[b] {
                return Some(GraphDefect::UnreachableBlock(b));
            }
            b = b + 1;
        }
        proof {
            assert forall|c: int| 0 <= c < self.size() implies (
            #[trigger] self.blocks@[c]).terminator.targets_below(self.size()) by {
                assert forall|k: int|
                    0 <= k < self.blocks@[c].terminator.successors().len() implies #[trigger] self.blocks@[c].terminator.successors()[k]
                    < self.size() by {
                    assert(self.succs(c)[k] < self.size());
                }
            }
        }
        None
    }
}

} // verus!
