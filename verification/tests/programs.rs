//! Program invocation and the top-level registry, end to end.

use postfix::parse::{BuiltIn, Command};
use postfix::program::{Error as ProgramError, Program};
use postfix::sexp::SExp;
use postfix::top_level::{Error as TopLevelError, Response, TopLevel};

fn symbol(name: &str) -> SExp {
    SExp::Symbol(name.to_string())
}

#[test]
fn test_apply_sub_two_args() {
    let program = Program::new(2, vec![Command::BuiltIn(BuiltIn::Sub)]);
    assert_eq!(Ok(-1), program.apply(vec![2, 1]));
}

#[test]
fn test_apply_ignores_unused_args() {
    let program = Program::new(
        2,
        vec![
            Command::Integer(4),
            Command::Integer(7),
            Command::BuiltIn(BuiltIn::Sub),
        ],
    );
    assert_eq!(Ok(-3), program.apply(vec![5, 3]));
}

#[test]
fn test_apply_wrong_number_of_args() {
    let program = Program::new(2, vec![Command::BuiltIn(BuiltIn::Sub)]);
    assert_eq!(
        Err(TopLevelError::WrongNumberOfArgs { expected: 2, actual: 1 }),
        program.apply(vec![5])
    );
}

#[test]
fn test_apply_zero_args_empty_body() {
    let program = Program::new(0, vec![]);
    assert_eq!(
        Err(TopLevelError::ProgramError(ProgramError::NotEnoughValues)),
        program.apply(vec![])
    );
}

#[test]
fn test_apply_final_value_not_an_integer() {
    let program = Program::new(0, vec![Command::ExecutableSequence(vec![])]);
    assert_eq!(
        Err(TopLevelError::ProgramError(ProgramError::FinalValueNotAnInteger)),
        program.apply(vec![])
    );
}

#[test]
fn test_apply_residual_stack_is_discarded() {
    let program = Program::new(3, vec![]);
    assert_eq!(Ok(7), program.apply(vec![7, 8, 9]));
}

#[test]
fn test_apply_quoted_conditional() {
    // (2 mul) and (10 add) quoted, selected on the first argument, executed.
    let program = Program::new(
        2,
        vec![
            Command::ExecutableSequence(vec![
                Command::Integer(2),
                Command::BuiltIn(BuiltIn::Mul),
            ]),
            Command::ExecutableSequence(vec![
                Command::Integer(10),
                Command::BuiltIn(BuiltIn::Add),
            ]),
            Command::BuiltIn(BuiltIn::Sel),
            Command::BuiltIn(BuiltIn::Exec),
        ],
    );
    assert_eq!(Ok(17), program.apply(vec![0, 7]));
    assert_eq!(Ok(14), program.apply(vec![1, 7]));
}

#[test]
fn test_interpret_builtin_wrapper_add() {
    let mut top_level = TopLevel::new();
    let response =
        top_level.interpret(SExp::List(vec![symbol("add"), SExp::Integer(1), SExp::Integer(2)]));
    assert_eq!(Response::Value(3), response);
}

#[test]
fn test_interpret_builtin_wrapper_sub_order() {
    let mut top_level = TopLevel::new();
    let response =
        top_level.interpret(SExp::List(vec![symbol("sub"), SExp::Integer(5), SExp::Integer(3)]));
    assert_eq!(Response::Value(-2), response);
}

#[test]
fn test_interpret_program_not_found() {
    let mut top_level = TopLevel::new();
    let response = top_level.interpret(SExp::List(vec![symbol("foo")]));
    assert_eq!(
        Response::Failed(TopLevelError::ProgramNotFound("foo".to_string())),
        response
    );
}

#[test]
fn test_interpret_def_and_call() {
    let mut top_level = TopLevel::new();
    let def = top_level.interpret(SExp::List(vec![
        symbol("def"),
        symbol("double"),
        SExp::Integer(1),
        SExp::Integer(2),
        symbol("mul"),
    ]));
    assert_eq!(Response::NoOutput, def);
    let call = top_level.interpret(SExp::List(vec![symbol("double"), SExp::Integer(21)]));
    assert_eq!(Response::Value(42), call);
}

#[test]
fn test_interpret_redefinition_uses_latest() {
    let mut top_level = TopLevel::new();
    top_level.interpret(SExp::List(vec![
        symbol("def"),
        symbol("f"),
        SExp::Integer(1),
        SExp::Integer(1),
        symbol("add"),
    ]));
    top_level.interpret(SExp::List(vec![
        symbol("def"),
        symbol("f"),
        SExp::Integer(1),
        SExp::Integer(10),
        symbol("mul"),
    ]));
    let call = top_level.interpret(SExp::List(vec![symbol("f"), SExp::Integer(5)]));
    assert_eq!(Response::Value(50), call);
}

#[test]
fn test_interpret_redefinition_changes_arity() {
    let mut top_level = TopLevel::new();
    top_level.interpret(SExp::List(vec![
        symbol("def"),
        symbol("g"),
        SExp::Integer(1),
    ]));
    top_level.interpret(SExp::List(vec![
        symbol("def"),
        symbol("g"),
        SExp::Integer(2),
        symbol("add"),
    ]));
    let wrong = top_level.interpret(SExp::List(vec![symbol("g"), SExp::Integer(5)]));
    assert_eq!(
        Response::Failed(TopLevelError::WrongNumberOfArgs { expected: 2, actual: 1 }),
        wrong
    );
}

#[test]
fn test_interpret_echoes_non_list() {
    let mut top_level = TopLevel::new();
    assert_eq!(
        Response::Echoed(SExp::Integer(5)),
        top_level.interpret(SExp::Integer(5))
    );
    assert_eq!(
        Response::Echoed(symbol("hello")),
        top_level.interpret(symbol("hello"))
    );
}

#[test]
fn test_interpret_empty_list() {
    let mut top_level = TopLevel::new();
    assert_eq!(
        Response::Failed(TopLevelError::NotEnoughArgs("()")),
        top_level.interpret(SExp::List(vec![]))
    );
}

#[test]
fn test_interpret_division_by_zero() {
    // The first argument ends on top of the stack and is the divisor.
    let mut top_level = TopLevel::new();
    let response =
        top_level.interpret(SExp::List(vec![symbol("div"), SExp::Integer(0), SExp::Integer(1)]));
    assert_eq!(
        Response::Failed(TopLevelError::ProgramError(ProgramError::DivisionByZero)),
        response
    );
}

#[test]
fn test_interpret_failed_call_leaves_registry_usable() {
    let mut top_level = TopLevel::new();
    top_level.interpret(SExp::List(vec![symbol("missing")]));
    let ok = top_level.interpret(SExp::List(vec![symbol("add"), SExp::Integer(2), SExp::Integer(2)]));
    assert_eq!(Response::Value(4), ok);
}

#[test]
fn test_stack_underflow_through_program() {
    // A one-argument program whose body wants two operands.
    let program = Program::new(1, vec![Command::BuiltIn(BuiltIn::Add)]);
    assert_eq!(
        Err(TopLevelError::ProgramError(ProgramError::NotEnoughValues)),
        program.apply(vec![1])
    );
}

#[test]
fn test_nget_reaches_arguments() {
    // (def quadruple 1 1 nget 1 nget add add) doubles twice over.
    let program = Program::new(
        1,
        vec![
            Command::Integer(1),
            Command::BuiltIn(BuiltIn::Nget),
            Command::Integer(1),
            Command::BuiltIn(BuiltIn::Nget),
            Command::BuiltIn(BuiltIn::Add),
            Command::BuiltIn(BuiltIn::Add),
        ],
    );
    assert_eq!(Ok(12), program.apply(vec![4]));
}
