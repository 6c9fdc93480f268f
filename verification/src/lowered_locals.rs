//! Lowering keeps to the locals of the body: what it gives names no local that the
//! body does not declare.

use crate::driver::MirLevel;
use crate::expressions::{operands_below, steps_below, Operand, Place, Rvalue};
use crate::gast::GExprBody;
use crate::lower::{
    lower_operands, lower_statements, lowered_step, lowered_steps, operands_admitted,
    step_admitted, Setting,
};
use crate::lower_body::{lowers_body, lowers_to, names_match};
use crate::mir::{
    MirBlock, MirBody, MirFunOperand, MirOperand, MirPlace, MirRvalue, MirStatement,
    MirStatementKind, MirStep, MirTerminator, MirTerminatorKind,
};
use crate::ullbc::{BlockData, BlockId, Graph, RawStatement, Statement, Terminator};
use vstd::prelude::*;

verus! {

/// What the statement does.
pub open spec fn content(s: Statement) -> RawStatement {
    *s.content
}

/// The steps that admitted steps become name locals of the body only.
pub proof fn lemma_steps_below(steps: Seq<MirStep>, n: int, setting: Setting)
    requires
        n <= steps.len(),
        forall|i: int| 0 <= i < n ==> step_admitted(#[trigger] steps[i], setting),
    ensures
        steps_below(lowered_steps(steps, n), setting.locals as int),
    decreases n,
{
    if n > 0 {
        lemma_steps_below(steps, n - 1, setting);
        assert(step_admitted(steps[n - 1], setting));
        let before = lowered_steps(steps, n - 1);
        match lowered_step(steps[n - 1]) {
            Ok(Some(s)) => {
                assert(s.local_below(setting.locals as int));
                assert forall|i: int| 0 <= i < before.push(s).len() implies (
                #[trigger] before.push(s)[i]).local_below(setting.locals as int) by {
                    if i < before.len() {
                        assert(before.push(s)[i] == before[i]);
                    }
                }
            },
            _ => {},
        }
    }
}

/// The place that an admitted place becomes names locals of the body only.
pub proof fn lemma_place_below(p: MirPlace, setting: Setting, out: Place)
    requires
        p.admitted(setting),
        p.lowers_to(out),
    ensures
        out.locals_below(setting.locals as int),
{
    lemma_steps_below(p.steps@, p.steps@.len() as int, setting);
}

/// The operand that an admitted operand becomes names locals of the body only.
pub proof fn lemma_operand_below(o: MirOperand, setting: Setting, out: Operand)
    requires
        o.admitted(setting),
        o.lowers_to(out),
    ensures
        out.locals_below(setting.locals as int),
{
    match o {
        MirOperand::Copy(p) => lemma_place_below(p, setting, out->Copy_0),
        MirOperand::Move(p) => lemma_place_below(p, setting, out->Move_0),
        MirOperand::Constant(_, _) => {},
    }
}

/// The operands that admitted operands become name locals of the body only.
pub proof fn lemma_operands_below(ops: Seq<MirOperand>, setting: Setting, out: Seq<Operand>)
    requires
        operands_admitted(ops, setting),
        lower_operands(ops, out),
    ensures
        operands_below(out, setting.locals as int),
{
    assert forall|i: int| 0 <= i < out.len() implies (#[trigger] out[i]).locals_below(
        setting.locals as int,
    ) by {
        assert(ops[i].admitted(setting));
        assert(ops[i].lowers_to(out[i]));
        lemma_operand_below(ops[i], setting, out[i]);
    }
}

/// The value that an admitted value becomes names locals of the body only.
pub proof fn lemma_rvalue_below(v: MirRvalue, setting: Setting, out: Rvalue)
    requires
        v.admitted(setting),
        v.lowers_to(out),
    ensures
        out.locals_below(setting.locals as int),
{
    match v {
        MirRvalue::Use(op) => lemma_operand_below(op, setting, out->Use_0),
        MirRvalue::CopyForDeref(p) => lemma_place_below(p, setting, out->Use_0->Copy_0),
        MirRvalue::Repeat(op, _) => lemma_operand_below(op, setting, out->Repeat_0),
        MirRvalue::Ref(_, p) => lemma_place_below(p, setting, out->Ref_0),
        MirRvalue::ThreadLocalRef => {},
        MirRvalue::RawPtr(_, p) => lemma_place_below(p, setting, out->RawPtr_0),
        MirRvalue::Len(p) => lemma_place_below(p, setting, out->Len_0),
        MirRvalue::Cast(_, op, _) => lemma_operand_below(op, setting, out->UnaryOp_1),
        MirRvalue::BinaryOp(_, a, b) => {
            lemma_operand_below(a, setting, out->BinaryOp_1);
            lemma_operand_below(b, setting, out->BinaryOp_2);
        },
        MirRvalue::NullaryOp(_, _) => {},
        MirRvalue::UnaryOp(_, op) => lemma_operand_below(op, setting, out->UnaryOp_1),
        MirRvalue::Discriminant(p) => lemma_place_below(p, setting, out->Discriminant_0),
        MirRvalue::Aggregate(_, ops) => lemma_operands_below(ops@, setting, out->Aggregate_1@),
        MirRvalue::ShallowInitBox(op, _) => lemma_operand_below(
            op,
            setting,
            out->ShallowInitBox_0,
        ),
    }
}

/// The statement that an admitted statement becomes names locals of the body only.
pub proof fn lemma_statement_below(s: MirStatement, setting: Setting, out: Statement)
    requires
        s.admitted(setting),
        s.lowers_to(out),
    ensures
        out.locals_below(setting.locals as int),
{
    match s.kind {
        MirStatementKind::Assign(p, v) => {
            lemma_place_below(p, setting, content(out)->Assign_0);
            lemma_rvalue_below(v, setting, content(out)->Assign_1);
        },
        MirStatementKind::FakeRead(p) => lemma_place_below(
            p,
            setting,
            content(out)->FakeRead_0,
        ),
        MirStatementKind::PlaceMention(p) => lemma_place_below(
            p,
            setting,
            content(out)->FakeRead_0,
        ),
        MirStatementKind::SetDiscriminant { place, variant_index } => lemma_place_below(
            place,
            setting,
            content(out)->SetDiscriminant_0,
        ),
        MirStatementKind::Deinit(p) => lemma_place_below(
            p,
            setting,
            content(out)->Deinit_0,
        ),
        MirStatementKind::Assume(op) => lemma_operand_below(
            op,
            setting,
            content(out)->Assert_0.cond,
        ),
        _ => {},
    }
}

/// The statements that admitted statements become name locals of the body only.
pub proof fn lemma_statements_below(
    stmts: Seq<MirStatement>,
    n: int,
    setting: Setting,
    out: Seq<Statement>,
)
    requires
        n <= stmts.len(),
        forall|k: int| 0 <= k < n ==> (#[trigger] stmts[k]).admitted(setting),
        lower_statements(stmts, n, out),
    ensures
        forall|i: int| 0 <= i < out.len() ==> (#[trigger] out[i]).locals_below(
            setting.locals as int,
        ),
    decreases n,
{
    if n > 0 {
        if stmts[n - 1].skipped() {
            lemma_statements_below(stmts, n - 1, setting, out);
        } else {
            lemma_statements_below(stmts, n - 1, setting, out.drop_last());
            assert(stmts[n - 1].admitted(setting));
            lemma_statement_below(stmts[n - 1], setting, out.last());
            assert forall|i: int| 0 <= i < out.len() implies (#[trigger] out[i]).locals_below(
                setting.locals as int,
            ) by {
                if i < out.len() - 1 {
                    assert(out[i] == out.drop_last()[i]);
                }
            }
        }
    }
}

/// What an admitted terminator becomes, and the statements that go before it, name
/// locals of the body only.
pub proof fn lemma_terminator_below(
    t: MirTerminator,
    names: Seq<Option<BlockId>>,
    setting: Setting,
    out: Terminator,
    pushed: Seq<Statement>,
)
    requires
        t.kind.admitted(setting),
        t.lowers_to(names, out, pushed),
    ensures
        out.locals_below(setting.locals as int),
        forall|i: int| 0 <= i < pushed.len() ==> (#[trigger] pushed[i]).locals_below(
            setting.locals as int,
        ),
{
    match t.kind {
        MirTerminatorKind::SwitchInt { discr, targets } => {
            lemma_operand_below(discr, setting, out->discr);
        },
        MirTerminatorKind::Drop { place, target } => {
            lemma_place_below(place, setting, content(pushed[0])->Drop_0);
        },
        MirTerminatorKind::Assert { cond, expected, target } => {
            lemma_operand_below(cond, setting, content(pushed[0])->Assert_0.cond);
        },
        MirTerminatorKind::Call { fun, args, destination, target } => {
            if !fun.panics() {
                let call = content(pushed[0])->Call_0;
                lemma_place_below(destination, setting, call.dest);
                lemma_operands_below(args@, setting, call.args@);
                match fun {
                    MirFunOperand::Id(_) => {},
                    MirFunOperand::Move(p) => {
                        lemma_place_below(p, setting, call.func->Move_0);
                    },
                }
            }
        },
        _ => {},
    }
}

/// The block that an admitted block becomes names locals of the body only.
pub proof fn lemma_block_below(
    block: MirBlock,
    blocks: int,
    names: Seq<Option<BlockId>>,
    setting: Setting,
    out: BlockData,
)
    requires
        block.admitted(blocks, setting),
        block.lowers_to(names, out),
    ensures
        out.terminator.locals_below(setting.locals as int),
        forall|k: int| 0 <= k < out.statements@.len() ==> (
        #[trigger] out.statements@[k]).locals_below(setting.locals as int),
{
    let own = choose|own: int|
        {
            &&& 0 <= own <= out.statements@.len()
            &&& #[trigger] lower_statements(
                block.statements@,
                block.statements@.len() as int,
                out.statements@.take(own),
            )
            &&& block.terminator->0.lowers_to(names, out.terminator, out.statements@.skip(own))
        };
    lemma_statements_below(
        block.statements@,
        block.statements@.len() as int,
        setting,
        out.statements@.take(own),
    );
    lemma_terminator_below(
        block.terminator->0,
        names,
        setting,
        out.terminator,
        out.statements@.skip(own),
    );
    assert forall|k: int| 0 <= k < out.statements@.len() implies (
    #[trigger] out.statements@[k]).locals_below(setting.locals as int) by {
        if k < own {
            assert(out.statements@[k] == out.statements@.take(own)[k]);
        } else {
            assert(out.statements@[k] == out.statements@.skip(own)[k - own]);
        }
    }
}

/// Every local that a statement or a terminator of a lowered body names has its
/// entry in the table of the body's locals; the locals stand at their own indices,
/// and the number of arguments is the one given.
pub proof fn lowered_locals_are_in_the_table(
    body: MirBody,
    level: MirLevel,
    arg_count: usize,
    out: GExprBody<Graph>,
)
    requires
        lowers_to(body, level, arg_count, out),
    ensures
        out.body.locals_below(out.locals@.len() as int),
        out.arg_count == arg_count,
        forall|i: int| 0 <= i < out.locals@.len() ==> (#[trigger] out.locals@[i]).index.index == i,
{
    let (order, names) = choose|order: Seq<usize>, names: Seq<Option<BlockId>>|
        {
            &&& #[trigger] body.lowering_order(level, order)
            &&& #[trigger] names_match(names, order)
            &&& names.len() == body.basic_blocks@.len()
            &&& lowers_body(body, level, order, names, out.body)
        };
    let setting = body.setting(level);
    assert forall|b: int| 0 <= b < out.body.size() implies {
        &&& (#[trigger] out.body.blocks@[b]).terminator.locals_below(out.locals@.len() as int)
        &&& forall|k: int|
            0 <= k < out.body.blocks@[b].statements@.len() ==> (
            #[trigger] out.body.blocks@[b].statements@[k]).locals_below(out.locals@.len() as int)
    } by {
        assert(body.block_error(order[b] as int, level) is None);
        assert(body.block_admitted(order[b] as int, level));
        lemma_block_below(
            body.basic_blocks@[order[b] as int],
            body.basic_blocks@.len() as int,
            names,
            setting,
            out.body.blocks@[b],
        );
    }
}

} // verus!
