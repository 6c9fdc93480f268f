//! The structured form of a procedure: a tree of sequences, branches and loops.

use crate::ullbc::{AbortKind, Operand, Statement};
use crate::values::{IntegerTy, ScalarValue};
use vstd::prelude::*;

verus! {

/// A structured statement, as a mathematical value.
pub enum TreeView {
    /// A leaf effect.
    Leaf(Statement),
    /// Statements run in their order.
    Sequence(Seq<TreeView>),
    /// A two-way branch: the tree for `true`, then the tree for `false`.
    If(Operand, Box<TreeView>, Box<TreeView>),
    /// A branch on an integer: the values of the arms, their trees, and the default.
    Switch(Operand, IntegerTy, Seq<ScalarValue>, Seq<TreeView>, Box<TreeView>),
    /// A loop that repeats its body until a `Break` leaves it.
    Loop(Box<TreeView>),
    /// Leaves the loop that lies so many loops out, the innermost being 0.
    Break(nat),
    /// Starts the next round of the loop that lies so many loops out.
    Continue(nat),
    Return,
    Abort(AbortKind),
}

impl TreeView {
    /// Whether every `Break` and `Continue` names a loop that is open at its place,
    /// `depth` loops being open around the tree.
    pub open spec fn levels_valid(self, depth: nat) -> bool
        decreases self,
    {
        match self {
            TreeView::Sequence(items) => forall|i: int|
                0 <= i < items.len() ==> (#[trigger] items[i]).levels_valid(depth),
            TreeView::If(_, a, b) => a.levels_valid(depth) && b.levels_valid(depth),
            TreeView::Switch(_, _, _, arms, d) => d.levels_valid(depth) && forall|i: int|
                0 <= i < arms.len() ==> (#[trigger] arms[i]).levels_valid(depth),
            TreeView::Loop(body) => body.levels_valid(depth + 1),
            TreeView::Break(k) => k < depth,
            TreeView::Continue(k) => k < depth,
            _ => true,
        }
    }

    /// Whether every local that the tree names lies below `n`.
    pub open spec fn locals_below(self, n: int) -> bool
        decreases self,
    {
        match self {
            TreeView::Leaf(s) => s.locals_below(n),
            TreeView::Sequence(items) => forall|i: int|
                0 <= i < items.len() ==> (#[trigger] items[i]).locals_below(n),
            TreeView::If(c, a, b) => c.locals_below(n) && a.locals_below(n) && b.locals_below(n),
            TreeView::Switch(c, _, _, arms, d) => c.locals_below(n) && d.locals_below(n)
                && forall|i: int| 0 <= i < arms.len() ==> (#[trigger] arms[i]).locals_below(n),
            TreeView::Loop(body) => body.locals_below(n),
            _ => true,
        }
    }

    /// Whether the tree holds no branch and no loop.
    pub open spec fn straight(self) -> bool
        decreases self,
    {
        match self {
            TreeView::Sequence(items) => forall|i: int|
                0 <= i < items.len() ==> (#[trigger] items[i]).straight(),
            TreeView::If(_, _, _) => false,
            TreeView::Switch(_, _, _, _, _) => false,
            TreeView::Loop(_) => false,
            _ => true,
        }
    }
}

/// A structured statement.
#[derive(Debug)]
pub enum Tree {
    Leaf(Statement),
    Sequence(Vec<Tree>),
    If(Operand, Box<Tree>, Box<Tree>),
    Switch(Operand, IntegerTy, Vec<(ScalarValue, Tree)>, Box<Tree>),
    Loop(Box<Tree>),
    Break(usize),
    Continue(usize),
    Return,
    Abort(AbortKind),
}

impl Tree {
    /// The tree as a mathematical value.
    pub open spec fn model(&self) -> TreeView
        decreases self,
    {
        match self {
            Tree::Leaf(s) => TreeView::Leaf(*s),
            Tree::Sequence(items) => TreeView::Sequence(
                Seq::new(
                    items@.len(),
                    |i: int|
                        if 0 <= i < items@.len() {
                            items@[i].model()
                        } else {
                            TreeView::Return
                        },
                ),
            ),
            Tree::If(c, a, b) => TreeView::If(*c, Box::new(a.model()), Box::new(b.model())),
            Tree::Switch(c, ty, arms, d) => TreeView::Switch(
                *c,
                *ty,
                Seq::new(arms@.len(), |i: int| arms@[i].0),
                Seq::new(
                    arms@.len(),
                    |i: int|
                        if 0 <= i < arms@.len() {
                            arms@[i].1.model()
                        } else {
                            TreeView::Return
                        },
                ),
                Box::new(d.model()),
            ),
            Tree::Loop(b) => TreeView::Loop(Box::new(b.model())),
            Tree::Break(n) => TreeView::Break(*n as nat),
            Tree::Continue(n) => TreeView::Continue(*n as nat),
            Tree::Return => TreeView::Return,
            Tree::Abort(k) => TreeView::Abort(*k),
        }
    }
}

impl View for Tree {
    type V = TreeView;

    open spec fn view(&self) -> TreeView {
        self.model()
    }
}

} // verus!
