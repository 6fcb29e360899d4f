//! Translation of symbolic expressions into commands, and classification
//! of top-level requests.

use postfix::parse::{BuiltIn, Command, Error};
use postfix::sexp::SExp;
use postfix::top_level::{Error as TopLevelError, TopLevelCommand};

fn symbol(name: &str) -> SExp {
    SExp::Symbol(name.to_string())
}

#[test]
fn test_read_executable_sequence() {
    assert_eq!(
        Ok(Command::ExecutableSequence(vec![
            Command::Integer(1),
            Command::Integer(2),
            Command::Integer(3)
        ])),
        Command::read(SExp::List(vec![
            SExp::Integer(1),
            SExp::Integer(2),
            SExp::Integer(3)
        ]))
    );
}

#[test]
fn test_read_integer() {
    assert_eq!(Ok(Command::Integer(10)), Command::read(SExp::Integer(10)));
}

#[test]
fn test_read_add() {
    assert_eq!(Ok(Command::BuiltIn(BuiltIn::Add)), Command::read(symbol("add")));
}

#[test]
fn test_read_div() {
    assert_eq!(Ok(Command::BuiltIn(BuiltIn::Div)), Command::read(symbol("div")));
}

#[test]
fn test_read_eq() {
    assert_eq!(Ok(Command::BuiltIn(BuiltIn::Eq)), Command::read(symbol("eq")));
}

#[test]
fn test_read_exec() {
    assert_eq!(Ok(Command::BuiltIn(BuiltIn::Exec)), Command::read(symbol("exec")));
}

#[test]
fn test_read_gt() {
    assert_eq!(Ok(Command::BuiltIn(BuiltIn::Gt)), Command::read(symbol("gt")));
}

#[test]
fn test_read_lt() {
    assert_eq!(Ok(Command::BuiltIn(BuiltIn::Lt)), Command::read(symbol("lt")));
}

#[test]
fn test_read_mul() {
    assert_eq!(Ok(Command::BuiltIn(BuiltIn::Mul)), Command::read(symbol("mul")));
}

#[test]
fn test_read_nget() {
    assert_eq!(Ok(Command::BuiltIn(BuiltIn::Nget)), Command::read(symbol("nget")));
}

#[test]
fn test_read_pop() {
    assert_eq!(Ok(Command::BuiltIn(BuiltIn::Pop)), Command::read(symbol("pop")));
}

#[test]
fn test_read_rem() {
    assert_eq!(Ok(Command::BuiltIn(BuiltIn::Rem)), Command::read(symbol("rem")));
}

#[test]
fn test_read_sel() {
    assert_eq!(Ok(Command::BuiltIn(BuiltIn::Sel)), Command::read(symbol("sel")));
}

#[test]
fn test_read_sub() {
    assert_eq!(Ok(Command::BuiltIn(BuiltIn::Sub)), Command::read(symbol("sub")));
}

#[test]
fn test_read_swap() {
    assert_eq!(Ok(Command::BuiltIn(BuiltIn::Swap)), Command::read(symbol("swap")));
}

#[test]
fn test_read_float() {
    assert_eq!(Err(Error::UsingFloat), Command::read(SExp::Float));
}

#[test]
fn test_read_string() {
    assert_eq!(
        Err(Error::UsingString),
        Command::read(SExp::Str("hello".to_string()))
    );
}

#[test]
fn test_read_unknown_builtin() {
    assert_eq!(
        Err(Error::UnknownBuiltin("frobnicate".to_string())),
        Command::read(symbol("frobnicate"))
    );
}

#[test]
fn test_read_nested_failure_wins() {
    assert_eq!(
        Err(Error::UsingFloat),
        Command::read(SExp::List(vec![SExp::Integer(1), SExp::Float, SExp::Integer(2)]))
    );
}

#[test]
fn test_top_level_read_def() {
    let expected = TopLevelCommand::Def {
        name: "foo".to_string(),
        num_args: 2,
        commands: vec![
            Command::Integer(4),
            Command::Integer(7),
            Command::BuiltIn(BuiltIn::Sub),
        ],
    };
    assert_eq!(
        Ok(expected),
        TopLevelCommand::read(vec![
            symbol("def"),
            symbol("foo"),
            SExp::Integer(2),
            SExp::Integer(4),
            SExp::Integer(7),
            symbol("sub"),
        ])
    );
}

#[test]
fn test_top_level_read_call() {
    let expected = TopLevelCommand::Call {
        name: "bar".to_string(),
        args: vec![1, 2],
    };
    assert_eq!(
        Ok(expected),
        TopLevelCommand::read(vec![symbol("bar"), SExp::Integer(1), SExp::Integer(2)])
    );
}

#[test]
fn test_top_level_read_empty() {
    assert_eq!(
        Err(TopLevelError::NotEnoughArgs("()")),
        TopLevelCommand::read(vec![])
    );
}

#[test]
fn test_top_level_read_not_a_symbol() {
    assert_eq!(
        Err(TopLevelError::NotASymbol),
        TopLevelCommand::read(vec![SExp::Integer(1)])
    );
}

#[test]
fn test_top_level_read_def_missing_name() {
    assert_eq!(
        Err(TopLevelError::NotEnoughArgs("def")),
        TopLevelCommand::read(vec![symbol("def")])
    );
}

#[test]
fn test_top_level_read_def_missing_arity() {
    assert_eq!(
        Err(TopLevelError::NotEnoughArgs("def")),
        TopLevelCommand::read(vec![symbol("def"), symbol("foo")])
    );
}

#[test]
fn test_top_level_read_def_arity_not_integer() {
    assert_eq!(
        Err(TopLevelError::NotAnInteger),
        TopLevelCommand::read(vec![symbol("def"), symbol("foo"), symbol("bar")])
    );
}

#[test]
fn test_top_level_read_def_bad_body() {
    assert_eq!(
        Err(TopLevelError::ReadError(Error::UsingFloat)),
        TopLevelCommand::read(vec![
            symbol("def"),
            symbol("foo"),
            SExp::Integer(1),
            SExp::Float,
        ])
    );
}

#[test]
fn test_top_level_read_call_illegal_argument() {
    assert_eq!(
        Err(TopLevelError::IllegalArgumentType(symbol("x"))),
        TopLevelCommand::read(vec![symbol("foo"), SExp::Integer(1), symbol("x")])
    );
}
