//! The built-in operators, invoked one at a time on concrete stacks.

use postfix::parse::{BuiltIn, Command};
use postfix::program::{Error, Program, Stack, StackValue};

fn stack(values: &[i128]) -> Stack {
    Stack(values.iter().map(|v| StackValue::Integer(*v)).collect())
}

#[test]
fn test_add() {
    assert_eq!(
        Ok(stack(&[3])),
        Program::apply_builtin(stack(&[2, 1]), &BuiltIn::Add)
    );
}

#[test]
fn test_sub() {
    assert_eq!(
        Ok(stack(&[1])),
        Program::apply_builtin(stack(&[2, 1]), &BuiltIn::Sub)
    );
}

#[test]
fn test_mul() {
    assert_eq!(
        Ok(stack(&[6])),
        Program::apply_builtin(stack(&[2, 3]), &BuiltIn::Mul)
    );
}

#[test]
fn test_div() {
    assert_eq!(
        Ok(stack(&[3])),
        Program::apply_builtin(stack(&[6, 2]), &BuiltIn::Div)
    );
}

#[test]
fn test_eq() {
    assert_eq!(
        Ok(stack(&[1])),
        Program::apply_builtin(stack(&[1, 1]), &BuiltIn::Eq)
    );
}

#[test]
fn test_not_eq() {
    assert_eq!(
        Ok(stack(&[0])),
        Program::apply_builtin(stack(&[1, 2]), &BuiltIn::Eq)
    );
}

#[test]
fn test_gt() {
    assert_eq!(
        Ok(stack(&[1])),
        Program::apply_builtin(stack(&[2, 1]), &BuiltIn::Gt)
    );
}

#[test]
fn test_not_gt() {
    assert_eq!(
        Ok(stack(&[0])),
        Program::apply_builtin(stack(&[1, 2]), &BuiltIn::Gt)
    );
}

#[test]
fn test_lt() {
    assert_eq!(
        Ok(stack(&[1])),
        Program::apply_builtin(stack(&[1, 2]), &BuiltIn::Lt)
    );
}

#[test]
fn test_not_lt() {
    assert_eq!(
        Ok(stack(&[0])),
        Program::apply_builtin(stack(&[2, 1]), &BuiltIn::Lt)
    );
}

#[test]
fn test_pop_empty() {
    assert_eq!(
        Err(Error::NotEnoughValues),
        Program::apply_builtin(stack(&[]), &BuiltIn::Pop)
    );
}

#[test]
fn test_pop() {
    assert_eq!(
        Ok(stack(&[1])),
        Program::apply_builtin(stack(&[1, 2]), &BuiltIn::Pop)
    );
}

#[test]
fn test_swap_empty() {
    assert_eq!(
        Err(Error::NotEnoughValues),
        Program::apply_builtin(stack(&[]), &BuiltIn::Swap)
    );
}

#[test]
fn test_swap_one() {
    assert_eq!(
        Err(Error::NotEnoughValues),
        Program::apply_builtin(stack(&[1]), &BuiltIn::Swap)
    );
}

#[test]
fn test_swap() {
    assert_eq!(
        Ok(stack(&[1, 9])),
        Program::apply_builtin(stack(&[9, 1]), &BuiltIn::Swap)
    );
}

#[test]
fn test_sel_then() {
    assert_eq!(
        Ok(stack(&[3])),
        Program::apply_builtin(stack(&[0, 2, 3]), &BuiltIn::Sel)
    );
}

#[test]
fn test_sel_else() {
    assert_eq!(
        Ok(stack(&[2])),
        Program::apply_builtin(stack(&[1, 2, 3]), &BuiltIn::Sel)
    );
}

#[test]
fn test_nget_exec_seq() {
    let ex_seq = StackValue::ExecutableSequence(vec![Command::Integer(1)]);
    let stack = Stack(vec![ex_seq, StackValue::Integer(1)]);
    assert_eq!(
        Err(Error::NotANumber),
        Program::apply_builtin(stack, &BuiltIn::Nget)
    );
}

#[test]
fn test_nget() {
    assert_eq!(
        Ok(stack(&[4, 4])),
        Program::apply_builtin(stack(&[4, 1]), &BuiltIn::Nget)
    );
}

#[test]
fn test_exec_number() {
    assert_eq!(
        Err(Error::NotAnExecutableSequence),
        Program::apply_builtin(stack(&[1]), &BuiltIn::Exec)
    );
}

#[test]
fn test_exec() {
    let ex_seq =
        StackValue::ExecutableSequence(vec![Command::Integer(2), Command::BuiltIn(BuiltIn::Mul)]);
    let stack_in = Stack(vec![StackValue::Integer(3), ex_seq]);
    assert_eq!(Ok(stack(&[6])), Program::apply_builtin(stack_in, &BuiltIn::Exec));
}

#[test]
fn test_rem() {
    assert_eq!(
        Ok(stack(&[1])),
        Program::apply_builtin(stack(&[7, 2]), &BuiltIn::Rem)
    );
}

#[test]
fn test_div_negative_truncates() {
    assert_eq!(
        Ok(stack(&[-3])),
        Program::apply_builtin(stack(&[-7, 2]), &BuiltIn::Div)
    );
}

#[test]
fn test_rem_negative_truncates() {
    assert_eq!(
        Ok(stack(&[-1])),
        Program::apply_builtin(stack(&[-7, 2]), &BuiltIn::Rem)
    );
}

#[test]
fn test_div_by_zero() {
    assert_eq!(
        Err(Error::DivisionByZero),
        Program::apply_builtin(stack(&[1, 0]), &BuiltIn::Div)
    );
}

#[test]
fn test_rem_by_zero() {
    assert_eq!(
        Err(Error::DivisionByZero),
        Program::apply_builtin(stack(&[1, 0]), &BuiltIn::Rem)
    );
}

#[test]
fn test_div_overflow_wraps() {
    assert_eq!(
        Ok(stack(&[i128::MIN])),
        Program::apply_builtin(stack(&[i128::MIN, -1]), &BuiltIn::Div)
    );
}

#[test]
fn test_rem_overflow_is_zero() {
    assert_eq!(
        Ok(stack(&[0])),
        Program::apply_builtin(stack(&[i128::MIN, -1]), &BuiltIn::Rem)
    );
}

#[test]
fn test_add_wraps() {
    assert_eq!(
        Ok(stack(&[i128::MIN])),
        Program::apply_builtin(stack(&[i128::MAX, 1]), &BuiltIn::Add)
    );
}

#[test]
fn test_add_one_operand_only() {
    assert_eq!(
        Err(Error::NotEnoughValues),
        Program::apply_builtin(stack(&[1]), &BuiltIn::Add)
    );
}

#[test]
fn test_add_rejects_block() {
    let ex_seq = StackValue::ExecutableSequence(vec![Command::Integer(1)]);
    let stack_in = Stack(vec![StackValue::Integer(2), ex_seq]);
    assert_eq!(
        Err(Error::NotANumber),
        Program::apply_builtin(stack_in, &BuiltIn::Add)
    );
}

#[test]
fn test_sel_rejects_block_condition() {
    let ex_seq = StackValue::ExecutableSequence(vec![Command::Integer(1)]);
    let stack_in = Stack(vec![ex_seq, StackValue::Integer(2), StackValue::Integer(3)]);
    assert_eq!(
        Err(Error::NotANumber),
        Program::apply_builtin(stack_in, &BuiltIn::Sel)
    );
}

#[test]
fn test_sel_keeps_blocks() {
    let ex_seq = StackValue::ExecutableSequence(vec![Command::Integer(9)]);
    let expected = Stack(vec![StackValue::ExecutableSequence(vec![Command::Integer(9)])]);
    let stack_in = Stack(vec![StackValue::Integer(0), StackValue::Integer(2), ex_seq]);
    assert_eq!(Ok(expected), Program::apply_builtin(stack_in, &BuiltIn::Sel));
}

#[test]
fn test_nget_index_zero() {
    assert_eq!(
        Err(Error::NotEnoughValues),
        Program::apply_builtin(stack(&[4, 0]), &BuiltIn::Nget)
    );
}

#[test]
fn test_nget_index_too_large() {
    assert_eq!(
        Err(Error::NotEnoughValues),
        Program::apply_builtin(stack(&[4, 2]), &BuiltIn::Nget)
    );
}

#[test]
fn test_nget_negative_index() {
    assert_eq!(
        Err(Error::NotEnoughValues),
        Program::apply_builtin(stack(&[4, -1]), &BuiltIn::Nget)
    );
}

#[test]
fn test_nget_empty() {
    assert_eq!(
        Err(Error::NotEnoughValues),
        Program::apply_builtin(stack(&[]), &BuiltIn::Nget)
    );
}

#[test]
fn test_exec_empty_stack() {
    assert_eq!(
        Err(Error::NotEnoughValues),
        Program::apply_builtin(stack(&[]), &BuiltIn::Exec)
    );
}

#[test]
fn test_exec_nested_quotation() {
    let inner = vec![Command::Integer(2), Command::BuiltIn(BuiltIn::Mul)];
    let outer = vec![
        Command::ExecutableSequence(inner),
        Command::BuiltIn(BuiltIn::Exec),
    ];
    let stack_in = Stack(vec![
        StackValue::Integer(3),
        StackValue::ExecutableSequence(outer),
    ]);
    assert_eq!(Ok(stack(&[6])), Program::apply_builtin(stack_in, &BuiltIn::Exec));
}

#[test]
fn test_exec_failure_aborts() {
    let block = vec![Command::BuiltIn(BuiltIn::Add), Command::Integer(1)];
    let stack_in = Stack(vec![StackValue::ExecutableSequence(block)]);
    assert_eq!(
        Err(Error::NotEnoughValues),
        Program::apply_builtin(stack_in, &BuiltIn::Exec)
    );
}
