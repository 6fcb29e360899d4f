//! The mathematical semantics of the machine: what one built-in does to a
//! stack, and what folding a command sequence through the evaluator yields.
//!
//! The evaluator is stated with an explicit fuel argument that bounds how
//! deeply `exec` may nest; a weight argument then shows that a fuel of one
//! more than the combined weight of the stack and the commands is always
//! enough, so the fuel never shows through in any contract: `run_cmds` is a
//! total function of the stack and the commands alone.

use vstd::prelude::*;

use vstd::wrapping::i128_specs;

use crate::parse::{BuiltIn, CmdModel};
use crate::program::Error;

verus! {

/// A runtime stack value: a numeric operand, or a quoted, not-yet-executed
/// block carried as data.
pub enum ValModel {
    ExecutableSequence(Seq<CmdModel>),
    Integer(i128),
}

/// The weight of one command: one for each node of the tree.
pub open spec fn cmd_weight(c: CmdModel) -> nat
    decreases c,
{
    match c {
        CmdModel::ExecutableSequence(inner) => 1 + cmds_weight(inner),
        CmdModel::Integer(_) => 1,
        CmdModel::BuiltIn(_) => 1,
    }
}

/// The combined weight of a command sequence.
pub open spec fn cmds_weight(commands: Seq<CmdModel>) -> nat
    decreases commands,
{
    if commands.len() == 0 {
        0
    } else {
        cmd_weight(commands.first()) + cmds_weight(commands.drop_first())
    }
}

/// The weight of a stack value: integers are free, a quoted block carries
/// the weight of its commands.
pub open spec fn val_weight(v: ValModel) -> nat {
    match v {
        ValModel::ExecutableSequence(inner) => cmds_weight(inner),
        ValModel::Integer(_) => 0,
    }
}

/// The combined weight of a stack.
pub open spec fn stack_weight(stack: Seq<ValModel>) -> nat
    decreases stack,
{
    if stack.len() == 0 {
        0
    } else {
        stack_weight(stack.drop_last()) + val_weight(stack.last())
    }
}

pub proof fn lemma_stack_weight_push(stack: Seq<ValModel>, v: ValModel)
    ensures
        stack_weight(stack.push(v)) == stack_weight(stack) + val_weight(v),
{
    assert(stack.push(v).drop_last() =~= stack);
}

/// `v2 <op> v1` for the binary numeric operators, with the wrapping
/// semantics of 128-bit signed arithmetic; comparisons yield one or zero.
pub open spec fn binop_value(op: BuiltIn, v2: i128, v1: i128) -> i128 {
    match op {
        BuiltIn::Add => i128_specs::wrapping_add(v2, v1),
        BuiltIn::Sub => i128_specs::wrapping_sub(v2, v1),
        BuiltIn::Mul => i128_specs::wrapping_mul(v2, v1),
        BuiltIn::Div => div_wrap(v2, v1),
        BuiltIn::Rem => rem_wrap(v2, v1),
        BuiltIn::Eq => if v2 == v1 { 1 } else { 0 },
        BuiltIn::Gt => if v2 > v1 { 1 } else { 0 },
        BuiltIn::Lt => if v2 < v1 { 1 } else { 0 },
        _ => arbitrary(),
    }
}

/// Truncating division, total over non-zero divisors: the one overflowing
/// quotient (the minimum value divided by minus one) wraps to itself.
pub open spec fn div_wrap(a: i128, b: i128) -> i128
    recommends
        b != 0,
{
    match a.checked_div(b) {
        Some(q) => q,
        None => i128::MIN,
    }
}

/// Truncating remainder, total over non-zero divisors: the remainder of the
/// one overflowing division (the minimum value by minus one) is zero.
pub open spec fn rem_wrap(a: i128, b: i128) -> i128
    recommends
        b != 0,
{
    match a.checked_rem(b) {
        Some(r) => r,
        None => 0,
    }
}

/// Whether the operator pops two operands that must both be integers.
pub open spec fn is_binary_numeric(op: BuiltIn) -> bool {
    match op {
        BuiltIn::Add => true,
        BuiltIn::Sub => true,
        BuiltIn::Mul => true,
        BuiltIn::Div => true,
        BuiltIn::Rem => true,
        BuiltIn::Eq => true,
        BuiltIn::Gt => true,
        BuiltIn::Lt => true,
        _ => false,
    }
}

/// How many operands the operator pops before it can do its work.
pub open spec fn operands_required(op: BuiltIn) -> nat {
    match op {
        BuiltIn::Sel => 3,
        BuiltIn::Pop => 1,
        BuiltIn::Nget => 1,
        BuiltIn::Exec => 1,
        _ => 2,
    }
}

/// The effect of one non-`exec` built-in on the stack: operands are popped
/// from the top, the first failure wins.
pub open spec fn apply_op(op: BuiltIn, stack: Seq<ValModel>) -> Result<Seq<ValModel>, Error>
    recommends
        !(op is Exec),
{
    if is_binary_numeric(op) {
        if stack.len() == 0 {
            Err(Error::NotEnoughValues)
        } else {
            match stack.last() {
                ValModel::ExecutableSequence(_) => Err(Error::NotANumber),
                ValModel::Integer(v1) => if stack.len() == 1 {
                    Err(Error::NotEnoughValues)
                } else {
                    match stack[stack.len() - 2] {
                        ValModel::ExecutableSequence(_) => Err(Error::NotANumber),
                        ValModel::Integer(v2) => if (op is Div || op is Rem) && v1 == 0 {
                            Err(Error::DivisionByZero)
                        } else {
                            Ok(
                                stack.drop_last().drop_last().push(
                                    ValModel::Integer(binop_value(op, v2, v1)),
                                ),
                            )
                        },
                    }
                },
            }
        }
    } else {
        match op {
            BuiltIn::Pop => if stack.len() == 0 {
                Err(Error::NotEnoughValues)
            } else {
                Ok(stack.drop_last())
            },
            BuiltIn::Swap => if stack.len() < 2 {
                Err(Error::NotEnoughValues)
            } else {
                Ok(
                    stack.drop_last().drop_last().push(stack.last()).push(
                        stack[stack.len() - 2],
                    ),
                )
            },
            BuiltIn::Sel => if stack.len() < 3 {
                Err(Error::NotEnoughValues)
            } else {
                match stack[stack.len() - 3] {
                    ValModel::ExecutableSequence(_) => Err(Error::NotANumber),
                    ValModel::Integer(v3) => Ok(
                        stack.drop_last().drop_last().drop_last().push(
                            if v3 == 0 {
                                stack.last()
                            } else {
                                stack[stack.len() - 2]
                            },
                        ),
                    ),
                }
            },
            BuiltIn::Nget => if stack.len() == 0 {
                Err(Error::NotEnoughValues)
            } else {
                match stack.last() {
                    ValModel::ExecutableSequence(_) => Err(Error::NotANumber),
                    ValModel::Integer(index) => {
                        let rest = stack.drop_last();
                        if index < 1 || index > rest.len() {
                            Err(Error::NotEnoughValues)
                        } else {
                            match rest[rest.len() - index] {
                                ValModel::ExecutableSequence(_) => Err(Error::NotANumber),
                                ValModel::Integer(v) => Ok(rest.push(ValModel::Integer(v))),
                            }
                        }
                    },
                }
            },
            _ => arbitrary(),
        }
    }
}

/// The fuel-bounded evaluator: a strict left-to-right fold of the commands
/// through the stack.  An integer command pushes its value, a quoted
/// sequence pushes itself unevaluated, a built-in applies `apply_op`, and
/// `exec` pops a quoted block and folds its commands into the same stack,
/// spending one unit of fuel.  `None` means the fuel ran out.
pub open spec fn eval_cmds(fuel: nat, stack: Seq<ValModel>, commands: Seq<CmdModel>) -> Option<
    Result<Seq<ValModel>, Error>,
>
    decreases fuel, commands.len(),
{
    if commands.len() == 0 {
        Some(Ok(stack))
    } else {
        let rest = commands.drop_first();
        match commands.first() {
            CmdModel::Integer(v) => eval_cmds(fuel, stack.push(ValModel::Integer(v)), rest),
            CmdModel::ExecutableSequence(inner) => eval_cmds(
                fuel,
                stack.push(ValModel::ExecutableSequence(inner)),
                rest,
            ),
            CmdModel::BuiltIn(op) => if op is Exec {
                if stack.len() == 0 {
                    Some(Err(Error::NotEnoughValues))
                } else {
                    match stack.last() {
                        ValModel::Integer(_) => Some(Err(Error::NotAnExecutableSequence)),
                        ValModel::ExecutableSequence(inner) => if fuel == 0 {
                            None
                        } else {
                            match eval_cmds((fuel - 1) as nat, stack.drop_last(), inner) {
                                None => None,
                                Some(Err(e)) => Some(Err(e)),
                                Some(Ok(s1)) => eval_cmds(fuel, s1, rest),
                            }
                        },
                    }
                }
            } else {
                match apply_op(op, stack) {
                    Err(e) => Some(Err(e)),
                    Ok(s1) => eval_cmds(fuel, s1, rest),
                }
            },
        }
    }
}

/// More fuel never changes an answer that was reached.
pub proof fn lemma_eval_cmds_fuel_mono(
    f1: nat,
    f2: nat,
    stack: Seq<ValModel>,
    commands: Seq<CmdModel>,
)
    requires
        f1 <= f2,
        eval_cmds(f1, stack, commands) is Some,
    ensures
        eval_cmds(f2, stack, commands) == eval_cmds(f1, stack, commands),
    decreases f1, commands.len(),
{
    if commands.len() == 0 {
    } else {
        let rest = commands.drop_first();
        match commands.first() {
            CmdModel::Integer(v) => {
                lemma_eval_cmds_fuel_mono(f1, f2, stack.push(ValModel::Integer(v)), rest);
            },
            CmdModel::ExecutableSequence(inner) => {
                lemma_eval_cmds_fuel_mono(
                    f1,
                    f2,
                    stack.push(ValModel::ExecutableSequence(inner)),
                    rest,
                );
            },
            CmdModel::BuiltIn(op) => if op is Exec {
                if stack.len() > 0 {
                    match stack.last() {
                        ValModel::Integer(_) => {},
                        ValModel::ExecutableSequence(inner) => {
                            match eval_cmds((f1 - 1) as nat, stack.drop_last(), inner) {
                                None => {},
                                Some(Err(_)) => {
                                    lemma_eval_cmds_fuel_mono(
                                        (f1 - 1) as nat,
                                        (f2 - 1) as nat,
                                        stack.drop_last(),
                                        inner,
                                    );
                                },
                                Some(Ok(s1)) => {
                                    lemma_eval_cmds_fuel_mono(
                                        (f1 - 1) as nat,
                                        (f2 - 1) as nat,
                                        stack.drop_last(),
                                        inner,
                                    );
                                    lemma_eval_cmds_fuel_mono(f1, f2, s1, rest);
                                },
                            }
                        },
                    }
                }
            } else {
                match apply_op(op, stack) {
                    Err(_) => {},
                    Ok(s1) => {
                        lemma_eval_cmds_fuel_mono(f1, f2, s1, rest);
                    },
                }
            },
        }
    }
}

/// A successful non-`exec` built-in never increases the stack's weight.
pub proof fn lemma_apply_op_weight(op: BuiltIn, stack: Seq<ValModel>)
    requires
        !(op is Exec),
        apply_op(op, stack) is Ok,
    ensures
        stack_weight(apply_op(op, stack)->Ok_0) <= stack_weight(stack),
{
    let res = apply_op(op, stack)->Ok_0;
    let s1 = stack.drop_last();
    if is_binary_numeric(op) {
        let s2 = s1.drop_last();
        assert(stack_weight(stack) == stack_weight(s1) + val_weight(stack.last()));
        assert(stack_weight(s1) == stack_weight(s2) + val_weight(s1.last()));
        assert(s1.last() == stack[stack.len() - 2]);
        lemma_stack_weight_push(s2, res.last());
        assert(res == s2.push(res.last()));
        assert(val_weight(res.last()) == 0);
    } else {
        match op {
            BuiltIn::Pop => {
                assert(stack_weight(stack) == stack_weight(s1) + val_weight(stack.last()));
            },
            BuiltIn::Swap => {
                let s2 = s1.drop_last();
                assert(stack_weight(stack) == stack_weight(s1) + val_weight(stack.last()));
                assert(stack_weight(s1) == stack_weight(s2) + val_weight(s1.last()));
                assert(s1.last() == stack[stack.len() - 2]);
                lemma_stack_weight_push(s2, stack.last());
                lemma_stack_weight_push(s2.push(stack.last()), stack[stack.len() - 2]);
            },
            BuiltIn::Sel => {
                let s2 = s1.drop_last();
                let s3 = s2.drop_last();
                assert(stack_weight(stack) == stack_weight(s1) + val_weight(stack.last()));
                assert(stack_weight(s1) == stack_weight(s2) + val_weight(s1.last()));
                assert(stack_weight(s2) == stack_weight(s3) + val_weight(s2.last()));
                assert(s1.last() == stack[stack.len() - 2]);
                assert(s2.last() == stack[stack.len() - 3]);
                lemma_stack_weight_push(s3, res.last());
                assert(res == s3.push(res.last()));
                assert(res.last() == stack.last() || res.last() == stack[stack.len() - 2]);
            },
            BuiltIn::Nget => {
                assert(stack_weight(stack) == stack_weight(s1) + val_weight(stack.last()));
                lemma_stack_weight_push(s1, res.last());
                assert(res == s1.push(res.last()));
                assert(val_weight(res.last()) == 0);
            },
            _ => {},
        }
    }
}

/// A successful evaluation is bounded: the weight of the resulting stack
/// never exceeds the combined weight that went in.
pub proof fn lemma_eval_cmds_weight(fuel: nat, stack: Seq<ValModel>, commands: Seq<CmdModel>)
    requires
        eval_cmds(fuel, stack, commands) matches Some(Ok(_)),
    ensures
        stack_weight(eval_cmds(fuel, stack, commands)->Some_0->Ok_0) <= stack_weight(stack)
            + cmds_weight(commands),
    decreases fuel, commands.len(),
{
    if commands.len() == 0 {
    } else {
        let rest = commands.drop_first();
        assert(cmds_weight(commands) == cmd_weight(commands.first()) + cmds_weight(rest));
        match commands.first() {
            CmdModel::Integer(v) => {
                lemma_stack_weight_push(stack, ValModel::Integer(v));
                lemma_eval_cmds_weight(fuel, stack.push(ValModel::Integer(v)), rest);
            },
            CmdModel::ExecutableSequence(inner) => {
                lemma_stack_weight_push(stack, ValModel::ExecutableSequence(inner));
                lemma_eval_cmds_weight(fuel, stack.push(ValModel::ExecutableSequence(inner)), rest);
            },
            CmdModel::BuiltIn(op) => if op is Exec {
                match stack.last() {
                    ValModel::Integer(_) => {},
                    ValModel::ExecutableSequence(inner) => {
                        assert(stack_weight(stack) == stack_weight(stack.drop_last())
                            + cmds_weight(inner));
                        match eval_cmds((fuel - 1) as nat, stack.drop_last(), inner) {
                            None => {},
                            Some(Err(_)) => {},
                            Some(Ok(s1)) => {
                                lemma_eval_cmds_weight((fuel - 1) as nat, stack.drop_last(), inner);
                                lemma_eval_cmds_weight(fuel, s1, rest);
                            },
                        }
                    },
                }
            } else {
                match apply_op(op, stack) {
                    Err(_) => {},
                    Ok(s1) => {
                        lemma_apply_op_weight(op, stack);
                        lemma_eval_cmds_weight(fuel, s1, rest);
                    },
                }
            },
        }
    }
}

/// Every evaluation terminates: a fuel beyond the combined weight of the
/// stack and the commands is never exhausted.  This is the termination
/// theorem of the language: quoted blocks cannot be duplicated, so each
/// `exec` strictly shrinks the total weight.
pub proof fn lemma_eval_cmds_total(fuel: nat, stack: Seq<ValModel>, commands: Seq<CmdModel>)
    requires
        fuel > stack_weight(stack) + cmds_weight(commands),
    ensures
        eval_cmds(fuel, stack, commands) is Some,
    decreases fuel, commands.len(),
{
    if commands.len() == 0 {
    } else {
        let rest = commands.drop_first();
        assert(cmds_weight(commands) == cmd_weight(commands.first()) + cmds_weight(rest));
        match commands.first() {
            CmdModel::Integer(v) => {
                lemma_stack_weight_push(stack, ValModel::Integer(v));
                lemma_eval_cmds_total(fuel, stack.push(ValModel::Integer(v)), rest);
            },
            CmdModel::ExecutableSequence(inner) => {
                lemma_stack_weight_push(stack, ValModel::ExecutableSequence(inner));
                lemma_eval_cmds_total(fuel, stack.push(ValModel::ExecutableSequence(inner)), rest);
            },
            CmdModel::BuiltIn(op) => if op is Exec {
                if stack.len() > 0 {
                    match stack.last() {
                        ValModel::Integer(_) => {},
                        ValModel::ExecutableSequence(inner) => {
                            assert(stack_weight(stack) == stack_weight(stack.drop_last())
                                + cmds_weight(inner));
                            lemma_eval_cmds_total((fuel - 1) as nat, stack.drop_last(), inner);
                            match eval_cmds((fuel - 1) as nat, stack.drop_last(), inner) {
                                None => {},
                                Some(Err(_)) => {},
                                Some(Ok(s1)) => {
                                    lemma_eval_cmds_weight(
                                        (fuel - 1) as nat,
                                        stack.drop_last(),
                                        inner,
                                    );
                                    lemma_eval_cmds_total(fuel, s1, rest);
                                },
                            }
                        },
                    }
                }
            } else {
                match apply_op(op, stack) {
                    Err(_) => {},
                    Ok(s1) => {
                        lemma_apply_op_weight(op, stack);
                        lemma_eval_cmds_total(fuel, s1, rest);
                    },
                }
            },
        }
    }
}

/// Fuel that is always sufficient for the given stack and commands.
pub open spec fn sufficient_fuel(stack: Seq<ValModel>, commands: Seq<CmdModel>) -> nat {
    stack_weight(stack) + cmds_weight(commands) + 1
}

/// The result of folding `commands` through `stack`: the fuel-free
/// evaluation function that every contract speaks of.
pub open spec fn run_cmds(stack: Seq<ValModel>, commands: Seq<CmdModel>) -> Result<
    Seq<ValModel>,
    Error,
> {
    eval_cmds(sufficient_fuel(stack, commands), stack, commands)->Some_0
}

/// The initial stack of a program invocation: the arguments pushed in
/// reverse order, so the first argument ends on top.
pub open spec fn seed_stack(args: Seq<i128>) -> Seq<ValModel> {
    args.reverse().map_values(|a: i128| ValModel::Integer(a))
}

/// What one built-in invocation yields: `exec` pops a quoted block and runs
/// it against the remaining stack, everything else is `apply_op`.
pub open spec fn builtin_result(op: BuiltIn, stack: Seq<ValModel>) -> Result<Seq<ValModel>, Error> {
    if op is Exec {
        if stack.len() == 0 {
            Err(Error::NotEnoughValues)
        } else {
            match stack.last() {
                ValModel::Integer(_) => Err(Error::NotAnExecutableSequence),
                ValModel::ExecutableSequence(inner) => run_cmds(stack.drop_last(), inner),
            }
        }
    } else {
        apply_op(op, stack)
    }
}

/// What one command does to the stack: an integer pushes its value, a
/// quoted sequence pushes itself unevaluated, a built-in is invoked.
pub open spec fn cmd_step(c: CmdModel, stack: Seq<ValModel>) -> Result<Seq<ValModel>, Error> {
    match c {
        CmdModel::Integer(v) => Ok(stack.push(ValModel::Integer(v))),
        CmdModel::ExecutableSequence(inner) => Ok(
            stack.push(ValModel::ExecutableSequence(inner)),
        ),
        CmdModel::BuiltIn(op) => builtin_result(op, stack),
    }
}

/// A successful run never weighs more than what went in.
pub proof fn lemma_run_cmds_weight(stack: Seq<ValModel>, commands: Seq<CmdModel>)
    requires
        run_cmds(stack, commands) is Ok,
    ensures
        stack_weight(run_cmds(stack, commands)->Ok_0) <= stack_weight(stack) + cmds_weight(
            commands,
        ),
{
    let enough = sufficient_fuel(stack, commands);
    lemma_eval_cmds_total(enough, stack, commands);
    lemma_eval_cmds_weight(enough, stack, commands);
}

/// One successful command step costs at least one unit of weight.
pub proof fn lemma_cmd_step_weight(c: CmdModel, stack: Seq<ValModel>)
    requires
        cmd_step(c, stack) is Ok,
    ensures
        stack_weight(cmd_step(c, stack)->Ok_0) + 1 <= stack_weight(stack) + cmd_weight(c),
{
    match c {
        CmdModel::Integer(v) => {
            lemma_stack_weight_push(stack, ValModel::Integer(v));
        },
        CmdModel::ExecutableSequence(inner) => {
            lemma_stack_weight_push(stack, ValModel::ExecutableSequence(inner));
        },
        CmdModel::BuiltIn(op) => if op is Exec {
            match stack.last() {
                ValModel::Integer(_) => {},
                ValModel::ExecutableSequence(inner) => {
                    assert(stack_weight(stack) == stack_weight(stack.drop_last()) + cmds_weight(
                        inner,
                    ));
                    lemma_run_cmds_weight(stack.drop_last(), inner);
                },
            }
        } else {
            lemma_apply_op_weight(op, stack);
        },
    }
}

/// `run_cmds` on any chosen fuel, provided the fuel was enough.
pub proof fn lemma_run_cmds_fuel(fuel: nat, stack: Seq<ValModel>, commands: Seq<CmdModel>)
    requires
        eval_cmds(fuel, stack, commands) is Some,
    ensures
        eval_cmds(fuel, stack, commands) == Some(run_cmds(stack, commands)),
{
    let enough = sufficient_fuel(stack, commands);
    lemma_eval_cmds_total(enough, stack, commands);
    if fuel <= enough {
        lemma_eval_cmds_fuel_mono(fuel, enough, stack, commands);
    } else {
        lemma_eval_cmds_fuel_mono(enough, fuel, stack, commands);
    }
}

/// The one-step unfolding of `run_cmds` on a non-empty command sequence,
/// stated without fuel: this is how executable code reasons about the fold.
pub proof fn lemma_run_cmds_unfold(stack: Seq<ValModel>, commands: Seq<CmdModel>)
    requires
        commands.len() > 0,
    ensures
        run_cmds(stack, commands) == (match cmd_step(commands.first(), stack) {
            Err(e) => Err(e),
            Ok(s1) => run_cmds(s1, commands.drop_first()),
        }),
{
    let rest = commands.drop_first();
    let enough = sufficient_fuel(stack, commands);
    lemma_eval_cmds_total(enough, stack, commands);
    assert(cmds_weight(commands) == cmd_weight(commands.first()) + cmds_weight(rest));
    match commands.first() {
        CmdModel::Integer(v) => {
            lemma_stack_weight_push(stack, ValModel::Integer(v));
            lemma_eval_cmds_total(enough, stack.push(ValModel::Integer(v)), rest);
            lemma_run_cmds_fuel(enough, stack.push(ValModel::Integer(v)), rest);
        },
        CmdModel::ExecutableSequence(inner) => {
            lemma_stack_weight_push(stack, ValModel::ExecutableSequence(inner));
            lemma_eval_cmds_total(enough, stack.push(ValModel::ExecutableSequence(inner)), rest);
            lemma_run_cmds_fuel(enough, stack.push(ValModel::ExecutableSequence(inner)), rest);
        },
        CmdModel::BuiltIn(op) => if op is Exec {
            if stack.len() > 0 {
                match stack.last() {
                    ValModel::Integer(_) => {},
                    ValModel::ExecutableSequence(inner) => {
                        assert(stack_weight(stack) == stack_weight(stack.drop_last())
                            + cmds_weight(inner));
                        lemma_eval_cmds_total((enough - 1) as nat, stack.drop_last(), inner);
                        lemma_run_cmds_fuel((enough - 1) as nat, stack.drop_last(), inner);
                        match eval_cmds((enough - 1) as nat, stack.drop_last(), inner) {
                            None => {},
                            Some(Err(_)) => {},
                            Some(Ok(s1)) => {
                                lemma_eval_cmds_weight((enough - 1) as nat, stack.drop_last(), inner);
                                lemma_eval_cmds_total(enough, s1, rest);
                                lemma_run_cmds_fuel(enough, s1, rest);
                            },
                        }
                    },
                }
            }
        } else {
            match apply_op(op, stack) {
                Err(_) => {},
                Ok(s1) => {
                    lemma_apply_op_weight(op, stack);
                    lemma_eval_cmds_total(enough, s1, rest);
                    lemma_run_cmds_fuel(enough, s1, rest);
                },
            }
        },
    }
}

/// Stack underflow: a built-in that requires more operands than an
/// all-integer stack holds always fails with `NotEnoughValues`.
///
/// The all-integer condition matters: the operand type checks are
/// interleaved with the pops, so a too-short stack whose top is a quoted
/// block is reported as `NotANumber` by the numeric operators instead.
pub proof fn lemma_stack_underflow(op: BuiltIn, stack: Seq<ValModel>)
    requires
        stack.len() < operands_required(op),
        forall|i: int| 0 <= i < stack.len() ==> (#[trigger] stack[i]) is Integer,
    ensures
        builtin_result(op, stack) == Err::<Seq<ValModel>, Error>(Error::NotEnoughValues),
{
}

/// Type discipline for the binary numeric operators: a quoted block among
/// the two popped operands is rejected with `NotANumber`.
pub proof fn lemma_numeric_rejects_block(op: BuiltIn, stack: Seq<ValModel>)
    requires
        is_binary_numeric(op),
        stack.len() >= 1,
        stack.last() is ExecutableSequence || (stack.len() >= 2 && stack.last() is Integer
            && stack[stack.len() - 2] is ExecutableSequence),
    ensures
        builtin_result(op, stack) == Err::<Seq<ValModel>, Error>(Error::NotANumber),
{
}

/// Type discipline for `nget`: a quoted block as the index operand is
/// rejected with `NotANumber`.
pub proof fn lemma_nget_rejects_block_index(stack: Seq<ValModel>)
    requires
        stack.len() >= 1,
        stack.last() is ExecutableSequence,
    ensures
        builtin_result(BuiltIn::Nget, stack) == Err::<Seq<ValModel>, Error>(Error::NotANumber),
{
}

/// Type discipline for `nget`: fetching a quoted block by index is rejected
/// with `NotANumber` — index lookups duplicate integers only.
pub proof fn lemma_nget_rejects_block_target(stack: Seq<ValModel>, index: i128)
    requires
        stack.len() >= 1,
        stack.last() == ValModel::Integer(index),
        1 <= index <= stack.len() - 1,
        stack[stack.len() - 1 - index] is ExecutableSequence,
    ensures
        builtin_result(BuiltIn::Nget, stack) == Err::<Seq<ValModel>, Error>(Error::NotANumber),
{
    let rest = stack.drop_last();
    assert(rest[rest.len() - index] == stack[stack.len() - 1 - index]);
}

/// Type discipline for `sel`: a quoted block as the condition operand (the
/// deepest of the three) is rejected with `NotANumber`.
pub proof fn lemma_sel_rejects_block_condition(stack: Seq<ValModel>)
    requires
        stack.len() >= 3,
        stack[stack.len() - 3] is ExecutableSequence,
    ensures
        builtin_result(BuiltIn::Sel, stack) == Err::<Seq<ValModel>, Error>(Error::NotANumber),
{
}

/// Type discipline for `exec`: an integer operand is rejected with
/// `NotAnExecutableSequence`.
pub proof fn lemma_exec_rejects_integer(stack: Seq<ValModel>)
    requires
        stack.len() >= 1,
        stack.last() is Integer,
    ensures
        builtin_result(BuiltIn::Exec, stack) == Err::<Seq<ValModel>, Error>(
            Error::NotAnExecutableSequence,
        ),
{
}

} // verus!
