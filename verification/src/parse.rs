//! Translation of parsed symbolic expressions into the command
//! representation that the machine executes.
//!
//! An integer literal becomes an integer command, a symbol must name one of
//! the fixed built-in operators, and a list becomes a quoted command
//! sequence, translated recursively.  Floats and strings have no place in
//! the language and are rejected outright.

use vstd::prelude::*;

use crate::sexp::{SExp, SExpModel, sexp_view, sexp_seq_view};

verus! {

/// The fixed, closed set of built-in operators.
#[derive(Clone, Copy, Debug, PartialEq, Eq, Structural)]
pub enum BuiltIn {
    Add,
    Div,
    Eq,
    Exec,
    Gt,
    Lt,
    Mul,
    Nget,
    Pop,
    Rem,
    Sel,
    Sub,
    Swap,
}

/// One compiled command: a literal, a built-in opcode, or a quoted
/// (unevaluated) command sequence.
#[derive(Debug, PartialEq)]
pub enum Command {
    ExecutableSequence(Vec<Command>),
    Integer(i128),
    BuiltIn(BuiltIn),
}

/// The mathematical shape of a [`Command`]: sequences in place of vectors.
pub enum CmdModel {
    ExecutableSequence(Seq<CmdModel>),
    Integer(i128),
    BuiltIn(BuiltIn),
}

pub open spec fn cmd_view(c: Command) -> CmdModel
    decreases c,
{
    match c {
        Command::ExecutableSequence(inner) => CmdModel::ExecutableSequence(cmd_seq_view(inner@)),
        Command::Integer(value) => CmdModel::Integer(value),
        Command::BuiltIn(op) => CmdModel::BuiltIn(op),
    }
}

pub open spec fn cmd_seq_view(commands: Seq<Command>) -> Seq<CmdModel>
    decreases commands,
{
    if commands.len() == 0 {
        Seq::empty()
    } else {
        cmd_seq_view(commands.drop_last()).push(cmd_view(commands.last()))
    }
}

impl View for Command {
    type V = CmdModel;

    open spec fn view(&self) -> CmdModel {
        cmd_view(*self)
    }
}

/// `cmd_seq_view` maps the view over the sequence, element by element.
pub proof fn lemma_cmd_seq_view(commands: Seq<Command>)
    ensures
        cmd_seq_view(commands).len() == commands.len(),
        forall|i: int|
            0 <= i < commands.len() ==> cmd_seq_view(commands)[i] == cmd_view(
                #[trigger] commands[i],
            ),
    decreases commands.len(),
{
    if commands.len() > 0 {
        lemma_cmd_seq_view(commands.drop_last());
        assert forall|i: int| 0 <= i < commands.len() implies cmd_seq_view(commands)[i]
            == cmd_view(commands[i]) by {
            if i < commands.len() - 1 {
                assert(commands.drop_last()[i] == commands[i]);
                assert(cmd_seq_view(commands)[i] == cmd_seq_view(commands.drop_last())[i]);
            } else {
                assert(commands.last() == commands[i]);
            }
        }
    }
}

/// `sexp_seq_view` maps the view over the sequence, element by element.
pub proof fn lemma_sexp_seq_view(exprs: Seq<SExp>)
    ensures
        sexp_seq_view(exprs).len() == exprs.len(),
        forall|i: int|
            0 <= i < exprs.len() ==> sexp_seq_view(exprs)[i] == sexp_view(#[trigger] exprs[i]),
    decreases exprs.len(),
{
    if exprs.len() > 0 {
        lemma_sexp_seq_view(exprs.drop_last());
        assert forall|i: int| 0 <= i < exprs.len() implies sexp_seq_view(exprs)[i] == sexp_view(
            exprs[i],
        ) by {
            if i < exprs.len() - 1 {
                assert(exprs.drop_last()[i] == exprs[i]);
                assert(sexp_seq_view(exprs)[i] == sexp_seq_view(exprs.drop_last())[i]);
            } else {
                assert(exprs.last() == exprs[i]);
            }
        }
    }
}

/// Viewing a non-empty sequence commutes with splitting off its head.
pub proof fn lemma_sexp_seq_view_step(exprs: Seq<SExp>)
    requires
        exprs.len() > 0,
    ensures
        sexp_seq_view(exprs).len() == exprs.len(),
        sexp_seq_view(exprs).first() == sexp_view(exprs.first()),
        sexp_seq_view(exprs).drop_first() == sexp_seq_view(exprs.drop_first()),
{
    lemma_sexp_seq_view(exprs);
    lemma_sexp_seq_view(exprs.drop_first());
    assert forall|i: int|
        0 <= i < sexp_seq_view(exprs).drop_first().len() implies sexp_seq_view(
        exprs,
    ).drop_first()[i] == sexp_seq_view(exprs.drop_first())[i] by {
        assert(exprs[i + 1] == exprs.drop_first()[i]);
        assert(sexp_seq_view(exprs)[i + 1] == sexp_view(exprs[i + 1]));
        assert(sexp_seq_view(exprs.drop_first())[i] == sexp_view(exprs.drop_first()[i]));
    }
    assert(sexp_seq_view(exprs).drop_first() =~= sexp_seq_view(exprs.drop_first()));
}

/// The size of an expression tree: one for each node.
pub open spec fn sexp_size(e: SExp) -> nat
    decreases e,
{
    match e {
        SExp::List(exprs) => 1 + sexp_seq_size(exprs@),
        _ => 1,
    }
}

/// The total size of a sequence of expression trees.
pub open spec fn sexp_seq_size(exprs: Seq<SExp>) -> nat
    decreases exprs,
{
    if exprs.len() == 0 {
        0
    } else {
        sexp_size(exprs.first()) + sexp_seq_size(exprs.drop_first())
    }
}

/// A failed translation: malformed program source.
#[derive(Debug, PartialEq)]
pub enum Error {
    UnknownBuiltin(String),
    UsingFloat,
    UsingString,
}

/// The mathematical shape of a translation failure.
pub enum ParseErrModel {
    UnknownBuiltin(Seq<char>),
    UsingFloat,
    UsingString,
}

impl View for Error {
    type V = ParseErrModel;

    open spec fn view(&self) -> ParseErrModel {
        match self {
            Error::UnknownBuiltin(name) => ParseErrModel::UnknownBuiltin(name@),
            Error::UsingFloat => ParseErrModel::UsingFloat,
            Error::UsingString => ParseErrModel::UsingString,
        }
    }
}

/// The built-in operator that a symbol names, if any.
pub open spec fn builtin_of(name: Seq<char>) -> Option<BuiltIn> {
    if name == "add"@ {
        Some(BuiltIn::Add)
    } else if name == "div"@ {
        Some(BuiltIn::Div)
    } else if name == "eq"@ {
        Some(BuiltIn::Eq)
    } else if name == "exec"@ {
        Some(BuiltIn::Exec)
    } else if name == "gt"@ {
        Some(BuiltIn::Gt)
    } else if name == "lt"@ {
        Some(BuiltIn::Lt)
    } else if name == "mul"@ {
        Some(BuiltIn::Mul)
    } else if name == "nget"@ {
        Some(BuiltIn::Nget)
    } else if name == "pop"@ {
        Some(BuiltIn::Pop)
    } else if name == "rem"@ {
        Some(BuiltIn::Rem)
    } else if name == "sel"@ {
        Some(BuiltIn::Sel)
    } else if name == "sub"@ {
        Some(BuiltIn::Sub)
    } else if name == "swap"@ {
        Some(BuiltIn::Swap)
    } else {
        None
    }
}

/// Whether `name` spells exactly the literal `lit`.
pub(crate) fn eq_lit(name: &String, lit: &str) -> (r: bool)
    ensures
        r == (name@ == lit@),
{
    let owned: String = lit.to_owned();
    name.eq(&owned)
}

impl BuiltIn {
    /// The operator named by `name`, or `UnknownBuiltin` if no built-in
    /// carries that name.
    pub fn read(name: String) -> (r: Result<BuiltIn, Error>)
        ensures
            match r {
                Ok(op) => builtin_of(name@) == Some(op),
                Err(e) => builtin_of(name@) is None && e@ == ParseErrModel::UnknownBuiltin(name@),
            },
    {
        if eq_lit(&name, "add") {
            Ok(BuiltIn::Add)
        } else if eq_lit(&name, "div") {
            Ok(BuiltIn::Div)
        } else if eq_lit(&name, "eq") {
            Ok(BuiltIn::Eq)
        } else if eq_lit(&name, "exec") {
            Ok(BuiltIn::Exec)
        } else if eq_lit(&name, "gt") {
            Ok(BuiltIn::Gt)
        } else if eq_lit(&name, "lt") {
            Ok(BuiltIn::Lt)
        } else if eq_lit(&name, "mul") {
            Ok(BuiltIn::Mul)
        } else if eq_lit(&name, "nget") {
            Ok(BuiltIn::Nget)
        } else if eq_lit(&name, "pop") {
            Ok(BuiltIn::Pop)
        } else if eq_lit(&name, "rem") {
            Ok(BuiltIn::Rem)
        } else if eq_lit(&name, "sel") {
            Ok(BuiltIn::Sel)
        } else if eq_lit(&name, "sub") {
            Ok(BuiltIn::Sub)
        } else if eq_lit(&name, "swap") {
            Ok(BuiltIn::Swap)
        } else {
            Err(Error::UnknownBuiltin(name))
        }
    }
}

/// Translation of one symbolic expression into a command, stated over the
/// mathematical shapes.
pub open spec fn read_cmd(e: SExpModel) -> Result<CmdModel, ParseErrModel>
    decreases e,
{
    match e {
        SExpModel::List(exprs) => match read_cmds(exprs) {
            Ok(commands) => Ok(CmdModel::ExecutableSequence(commands)),
            Err(err) => Err(err),
        },
        SExpModel::Integer(value) => Ok(CmdModel::Integer(value)),
        SExpModel::Symbol(name) => match builtin_of(name) {
            Some(op) => Ok(CmdModel::BuiltIn(op)),
            None => Err(ParseErrModel::UnknownBuiltin(name)),
        },
        SExpModel::Float => Err(ParseErrModel::UsingFloat),
        SExpModel::Str(_) => Err(ParseErrModel::UsingString),
    }
}

/// Translation of a sequence of symbolic expressions, left to right, the
/// first failure winning.
pub open spec fn read_cmds(exprs: Seq<SExpModel>) -> Result<Seq<CmdModel>, ParseErrModel>
    decreases exprs,
{
    if exprs.len() == 0 {
        Ok(Seq::empty())
    } else {
        match read_cmd(exprs.first()) {
            Err(err) => Err(err),
            Ok(command) => match read_cmds(exprs.drop_first()) {
                Err(err) => Err(err),
                Ok(commands) => Ok(commands.insert(0, command)),
            },
        }
    }
}

impl Command {
    /// Translates one parsed expression into a command.
    pub fn read(sexp: SExp) -> (r: Result<Command, Error>)
        ensures
            match r {
                Ok(c) => read_cmd(sexp@) == Ok::<CmdModel, ParseErrModel>(c@),
                Err(e) => read_cmd(sexp@) == Err::<CmdModel, ParseErrModel>(e@),
            },
        decreases sexp_size(sexp), 0nat,
    {
        match sexp {
            SExp::List(exprs) => match Command::read_ex_seq(exprs) {
                Ok(commands) => Ok(Command::ExecutableSequence(commands)),
                Err(err) => Err(err),
            },
            SExp::Integer(value) => Ok(Command::Integer(value)),
            SExp::Symbol(name) => match BuiltIn::read(name) {
                Ok(op) => Ok(Command::BuiltIn(op)),
                Err(err) => Err(err),
            },
            SExp::Float => Err(Error::UsingFloat),
            SExp::Str(_) => Err(Error::UsingString),
        }
    }

    /// Translates each expression in order; the first failure aborts the
    /// whole translation with no partial result.
    pub fn read_ex_seq(exprs: Vec<SExp>) -> (r: Result<Vec<Command>, Error>)
        ensures
            match r {
                Ok(commands) => read_cmds(sexp_seq_view(exprs@)) == Ok::<
                    Seq<CmdModel>,
                    ParseErrModel,
                >(cmd_seq_view(commands@)),
                Err(e) => read_cmds(sexp_seq_view(exprs@)) == Err::<
                    Seq<CmdModel>,
                    ParseErrModel,
                >(e@),
            },
        decreases sexp_seq_size(exprs@), 1nat,
    {
        let ghost orig = exprs;
        let mut exprs = exprs;
        if exprs.len() == 0 {
            let r: Vec<Command> = Vec::new();
            assert(sexp_seq_view(exprs@) =~= Seq::<SExpModel>::empty());
            assert(cmd_seq_view(r@) =~= Seq::<CmdModel>::empty());
            Ok(r)
        } else {
            let e = exprs.remove(0);
            proof {
                assert(exprs@ =~= orig@.drop_first());
                lemma_sexp_seq_view_step(orig@);
                assert(sexp_seq_size(orig@) == sexp_size(e) + sexp_seq_size(exprs@));
                assert(sexp_size(e) >= 1);
            }
            match Command::read(e) {
                Err(err) => Err(err),
                Ok(command) => match Command::read_ex_seq(exprs) {
                    Err(err) => Err(err),
                    Ok(mut commands) => {
                        let ghost tail = commands@;
                        commands.insert(0, command);
                        proof {
                            lemma_cmd_seq_view(tail);
                            lemma_cmd_seq_view(commands@);
                            assert(commands@ =~= tail.insert(0, command));
                            assert forall|i: int|
                                0 <= i < cmd_seq_view(commands@).len() implies cmd_seq_view(
                                commands@,
                            )[i] == cmd_seq_view(tail).insert(0, cmd_view(command))[i] by {
                                if i == 0 {
                                    assert(commands@[0] == command);
                                } else {
                                    assert(commands@[i] == tail[i - 1]);
                                    assert(cmd_seq_view(tail)[i - 1] == cmd_view(tail[i - 1]));
                                }
                            }
                            assert(cmd_seq_view(commands@) =~= cmd_seq_view(tail).insert(
                                0,
                                cmd_view(command),
                            ));
                        }
                        Ok(commands)
                    },
                },
            }
        }
    }
}

} // verus!
