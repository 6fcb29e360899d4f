//! The top level: the registry that maps program names to programs, and
//! the reading of one parsed request as either a definition or a call.
//!
//! A definition compiles its body and stores a program under its name,
//! overwriting any earlier definition of the same name; a call looks the
//! name up, invokes the program on the integer arguments, and yields one
//! integer.  The registry starts with arity-two wrapper programs shadowing
//! the binary built-in operators.

use vstd::prelude::*;

use crate::parse::{
    BuiltIn, CmdModel, Command, Error as ParseError, ParseErrModel, eq_lit,
    lemma_sexp_seq_view_step, read_cmds,
};
use crate::program::{Error as ProgramError, Program, ProgramModel, apply_program};
use crate::sexp::{SExp, SExpModel, sexp_seq_view, sexp_view};

verus! {

/// A failure at the registry boundary, or one propagated from translation
/// or evaluation.
#[derive(Debug, PartialEq)]
pub enum Error {
    IllegalArgumentType(SExp),
    NotASymbol,
    NotAnInteger,
    NotEnoughArgs(&'static str),
    ProgramNotFound(String),
    WrongNumberOfArgs { expected: usize, actual: usize },
    ReadError(ParseError),
    ProgramError(ProgramError),
}

/// The mathematical shape of a top-level failure.
pub enum ErrModel {
    IllegalArgumentType(SExpModel),
    NotASymbol,
    NotAnInteger,
    NotEnoughArgs(Seq<char>),
    ProgramNotFound(Seq<char>),
    WrongNumberOfArgs { expected: nat, actual: nat },
    ReadError(ParseErrModel),
    ProgramError(ProgramError),
}

impl View for Error {
    type V = ErrModel;

    open spec fn view(&self) -> ErrModel {
        match self {
            Error::IllegalArgumentType(sexp) => ErrModel::IllegalArgumentType(sexp_view(*sexp)),
            Error::NotASymbol => ErrModel::NotASymbol,
            Error::NotAnInteger => ErrModel::NotAnInteger,
            Error::NotEnoughArgs(context) => ErrModel::NotEnoughArgs(context.view()),
            Error::ProgramNotFound(name) => ErrModel::ProgramNotFound(name@),
            Error::WrongNumberOfArgs { expected, actual } => ErrModel::WrongNumberOfArgs {
                expected: *expected as nat,
                actual: *actual as nat,
            },
            Error::ReadError(err) => ErrModel::ReadError(err@),
            Error::ProgramError(err) => ErrModel::ProgramError(*err),
        }
    }
}

impl From<ParseError> for Error {
    /// A translation failure surfaces as `ReadError`.
    fn from(err: ParseError) -> (r: Error) {
        Error::ReadError(err)
    }
}

impl vstd::std_specs::convert::FromSpecImpl<ParseError> for Error {
    open spec fn obeys_from_spec() -> bool {
        true
    }

    open spec fn from_spec(err: ParseError) -> Error {
        Error::ReadError(err)
    }
}

impl From<ProgramError> for Error {
    /// An evaluation failure surfaces as `ProgramError`.
    fn from(err: ProgramError) -> (r: Error) {
        Error::ProgramError(err)
    }
}

impl vstd::std_specs::convert::FromSpecImpl<ProgramError> for Error {
    open spec fn obeys_from_spec() -> bool {
        true
    }

    open spec fn from_spec(err: ProgramError) -> Error {
        Error::ProgramError(err)
    }
}

/// One parsed request: define a named program, or call one.
#[derive(Debug, PartialEq)]
pub enum TopLevelCommand {
    Def { name: String, num_args: usize, commands: Vec<Command> },
    Call { name: String, args: Vec<i128> },
}

/// The mathematical shape of a request.
pub enum ReqModel {
    Def { name: Seq<char>, num_args: usize, commands: Seq<CmdModel> },
    Call { name: Seq<char>, args: Seq<i128> },
}

impl View for TopLevelCommand {
    type V = ReqModel;

    open spec fn view(&self) -> ReqModel {
        match self {
            TopLevelCommand::Def { name, num_args, commands } => ReqModel::Def {
                name: name@,
                num_args: *num_args,
                commands: crate::parse::cmd_seq_view(commands@),
            },
            TopLevelCommand::Call { name, args } => ReqModel::Call { name: name@, args: args@ },
        }
    }
}

/// The integer arguments of a call request: every expression must be an
/// integer literal, the first offender is rejected.
pub open spec fn read_args(exprs: Seq<SExpModel>) -> Result<Seq<i128>, ErrModel>
    decreases exprs.len(),
{
    if exprs.len() == 0 {
        Ok(Seq::empty())
    } else {
        match exprs.first() {
            SExpModel::Integer(value) => match read_args(exprs.drop_first()) {
                Ok(args) => Ok(args.insert(0, value)),
                Err(err) => Err(err),
            },
            _ => Err(ErrModel::IllegalArgumentType(exprs.first())),
        }
    }
}

/// Reading a definition request: a symbol naming the program, an integer
/// arity, and the command body.
pub open spec fn read_def(exprs: Seq<SExpModel>) -> Result<ReqModel, ErrModel> {
    if exprs.len() == 0 {
        Err(ErrModel::NotEnoughArgs("def"@))
    } else {
        match exprs.first() {
            SExpModel::Symbol(name) => {
                let rest = exprs.drop_first();
                if rest.len() == 0 {
                    Err(ErrModel::NotEnoughArgs("def"@))
                } else {
                    match rest.first() {
                        SExpModel::Integer(arity) => match read_cmds(rest.drop_first()) {
                            Ok(commands) => Ok(
                                ReqModel::Def { name, num_args: arity as usize, commands },
                            ),
                            Err(err) => Err(ErrModel::ReadError(err)),
                        },
                        _ => Err(ErrModel::NotAnInteger),
                    }
                }
            },
            _ => Err(ErrModel::NotASymbol),
        }
    }
}

/// Classifying one top-level list: the leading element must be a symbol;
/// the reserved symbol `def` introduces a definition, anything else is a
/// call of the named program.
pub open spec fn read_request(exprs: Seq<SExpModel>) -> Result<ReqModel, ErrModel> {
    if exprs.len() == 0 {
        Err(ErrModel::NotEnoughArgs("()"@))
    } else {
        match exprs.first() {
            SExpModel::Symbol(name) => if name == "def"@ {
                read_def(exprs.drop_first())
            } else {
                match read_args(exprs.drop_first()) {
                    Ok(args) => Ok(ReqModel::Call { name, args }),
                    Err(err) => Err(err),
                }
            },
            _ => Err(ErrModel::NotASymbol),
        }
    }
}

impl TopLevelCommand {
    /// Reads one parsed top-level list as a request.
    pub fn read(exprs: Vec<SExp>) -> (r: Result<TopLevelCommand, Error>)
        ensures
            match r {
                Ok(command) => read_request(sexp_seq_view(exprs@)) == Ok::<ReqModel, ErrModel>(
                    command@,
                ),
                Err(e) => read_request(sexp_seq_view(exprs@)) == Err::<ReqModel, ErrModel>(e@),
            },
    {
        let ghost orig = exprs@;
        let mut exprs = exprs;
        if exprs.len() == 0 {
            return Err(Error::NotEnoughArgs("()"));
        }
        let head = exprs.remove(0);
        proof {
            assert(exprs@ =~= orig.drop_first());
            lemma_sexp_seq_view_step(orig);
        }
        let name = match head.into_symbol() {
            Some(name) => name,
            None => { return Err(Error::NotASymbol) },
        };
        if eq_lit(&name, "def") {
            TopLevelCommand::def(exprs)
        } else {
            TopLevelCommand::call(name, exprs)
        }
    }

    /// Reads the tail of a `def` request: name, arity, body.
    fn def(exprs: Vec<SExp>) -> (r: Result<TopLevelCommand, Error>)
        ensures
            match r {
                Ok(command) => read_def(sexp_seq_view(exprs@)) == Ok::<ReqModel, ErrModel>(
                    command@,
                ),
                Err(e) => read_def(sexp_seq_view(exprs@)) == Err::<ReqModel, ErrModel>(e@),
            },
    {
        let ghost orig = exprs@;
        let mut exprs = exprs;
        if exprs.len() == 0 {
            return Err(Error::NotEnoughArgs("def"));
        }
        let head = exprs.remove(0);
        proof {
            assert(exprs@ =~= orig.drop_first());
            lemma_sexp_seq_view_step(orig);
        }
        let name = match head.into_symbol() {
            Some(name) => name,
            None => { return Err(Error::NotASymbol) },
        };
        let ghost after_name = exprs@;
        if exprs.len() == 0 {
            return Err(Error::NotEnoughArgs("def"));
        }
        let second = exprs.remove(0);
        proof {
            assert(exprs@ =~= after_name.drop_first());
            lemma_sexp_seq_view_step(after_name);
        }
        let arity = match second.into_integer() {
            Some(value) => value,
            None => { return Err(Error::NotAnInteger) },
        };
        let num_args: usize = #[verifier::truncate] (arity as usize);
        match Command::read_ex_seq(exprs) {
            Ok(commands) => Ok(TopLevelCommand::Def { name, num_args, commands }),
            Err(err) => Err(Error::ReadError(err)),
        }
    }

    /// Reads the tail of a call request: every argument must be an integer.
    fn call(name: String, exprs: Vec<SExp>) -> (r: Result<TopLevelCommand, Error>)
        ensures
            match r {
                Ok(command) => (match read_args(sexp_seq_view(exprs@)) {
                    Ok(args) => command@ == ReqModel::Call { name: name@, args },
                    Err(_) => false,
                }),
                Err(e) => read_args(sexp_seq_view(exprs@)) == Err::<Seq<i128>, ErrModel>(e@),
            },
    {
        match TopLevelCommand::call_args(exprs) {
            Ok(args) => Ok(TopLevelCommand::Call { name, args }),
            Err(e) => Err(e),
        }
    }

    /// Collects the integer arguments of a call, left to right.
    fn call_args(exprs: Vec<SExp>) -> (r: Result<Vec<i128>, Error>)
        ensures
            match r {
                Ok(args) => read_args(sexp_seq_view(exprs@)) == Ok::<Seq<i128>, ErrModel>(args@),
                Err(e) => read_args(sexp_seq_view(exprs@)) == Err::<Seq<i128>, ErrModel>(e@),
            },
        decreases exprs@.len(),
    {
        let ghost orig = exprs@;
        let mut exprs = exprs;
        if exprs.len() == 0 {
            let r: Vec<i128> = Vec::new();
            proof {
                assert(sexp_seq_view(orig) =~= Seq::<SExpModel>::empty());
            }
            return Ok(r);
        }
        let head = exprs.remove(0);
        proof {
            assert(exprs@ =~= orig.drop_first());
            lemma_sexp_seq_view_step(orig);
        }
        match head {
            SExp::Integer(value) => match TopLevelCommand::call_args(exprs) {
                Ok(mut args) => {
                    args.insert(0, value);
                    Ok(args)
                },
                Err(e) => Err(e),
            },
            other => Err(Error::IllegalArgumentType(other)),
        }
    }
}

/// Whether a sequence of registry entries carries each name at most once.
pub open spec fn wf_entries(entries: Seq<(String, Program)>) -> bool {
    forall|i: int, j: int|
        0 <= i < j < entries.len() ==> (#[trigger] entries[i]).0@ != (#[trigger] entries[j]).0@
}

/// The mapping that a sequence of registry entries denotes: later entries
/// win, though under `wf_entries` each name occurs at most once.
pub open spec fn table_view(entries: Seq<(String, Program)>) -> Map<Seq<char>, ProgramModel>
    decreases entries.len(),
{
    if entries.len() == 0 {
        Map::empty()
    } else {
        table_view(entries.drop_last()).insert(entries.last().0@, entries.last().1@)
    }
}

/// A name is in the table exactly when some entry carries it.
pub proof fn lemma_table_view_contains(entries: Seq<(String, Program)>, name: Seq<char>)
    ensures
        table_view(entries).contains_key(name) <==> exists|i: int|
            0 <= i < entries.len() && (#[trigger] entries[i]).0@ == name,
    decreases entries.len(),
{
    if entries.len() > 0 {
        lemma_table_view_contains(entries.drop_last(), name);
        if entries.last().0@ == name {
            assert(entries[entries.len() - 1].0@ == name);
        } else {
            if exists|i: int| 0 <= i < entries.len() - 1 && (#[trigger] entries.drop_last()[
                i
            ]).0@ == name {
                let i = choose|i: int|
                    0 <= i < entries.len() - 1 && (#[trigger] entries.drop_last()[i]).0@ == name;
                assert(entries[i].0@ == name);
            }
            if exists|i: int| 0 <= i < entries.len() && (#[trigger] entries[i]).0@ == name {
                let i = choose|i: int| 0 <= i < entries.len() && (#[trigger] entries[i]).0@ == name;
                assert(entries.drop_last()[i].0@ == name);
            }
        }
    }
}

/// Under uniqueness, the table maps an entry's name to that entry's
/// program.
pub proof fn lemma_table_view_get(entries: Seq<(String, Program)>, i: int)
    requires
        wf_entries(entries),
        0 <= i < entries.len(),
    ensures
        table_view(entries).contains_key(entries[i].0@),
        table_view(entries)[entries[i].0@] == entries[i].1@,
    decreases entries.len(),
{
    if i == entries.len() - 1 {
    } else {
        assert(wf_entries(entries.drop_last())) by {
            assert forall|a: int, b: int|
                0 <= a < b < entries.drop_last().len() implies (#[trigger] entries.drop_last()[
                a
            ]).0@ != (#[trigger] entries.drop_last()[b]).0@ by {
                assert(entries[a].0@ != entries[b].0@);
            }
        }
        assert(entries.drop_last()[i] == entries[i]);
        lemma_table_view_get(entries.drop_last(), i);
        assert(entries[i].0@ != entries.last().0@);
    }
}

/// Removing the entry that carries a name removes that name from the
/// table, and nothing else.
pub proof fn lemma_table_view_remove(entries: Seq<(String, Program)>, i: int)
    requires
        wf_entries(entries),
        0 <= i < entries.len(),
    ensures
        table_view(entries.remove(i)) =~= table_view(entries).remove(entries[i].0@),
        wf_entries(entries.remove(i)),
        !table_view(entries.remove(i)).contains_key(entries[i].0@),
    decreases entries.len(),
{
    let name = entries[i].0@;
    let removed = entries.remove(i);
    assert(wf_entries(removed)) by {
        assert forall|a: int, b: int|
            0 <= a < b < removed.len() implies (#[trigger] removed[a]).0@ != (
            #[trigger] removed[b]).0@ by {
            let a0 = if a < i { a } else { a + 1 };
            let b0 = if b < i { b } else { b + 1 };
            assert(removed[a] == entries[a0]);
            assert(removed[b] == entries[b0]);
            assert(entries[a0].0@ != entries[b0].0@);
        }
    }
    assert(!table_view(removed).contains_key(name)) by {
        lemma_table_view_contains(removed, name);
        if exists|j: int| 0 <= j < removed.len() && (#[trigger] removed[j]).0@ == name {
            let j = choose|j: int| 0 <= j < removed.len() && (#[trigger] removed[j]).0@ == name;
            let j0 = if j < i { j } else { j + 1 };
            assert(removed[j] == entries[j0]);
            assert(entries[j0].0@ == entries[i].0@ && j0 != i);
        }
    }
    if i == entries.len() - 1 {
        assert(removed =~= entries.drop_last());
        lemma_table_view_contains(entries.drop_last(), name);
        assert(!table_view(entries.drop_last()).contains_key(name)) by {
            if exists|j: int|
                0 <= j < entries.drop_last().len() && (#[trigger] entries.drop_last()[j]).0@
                    == name {
                let j = choose|j: int|
                    0 <= j < entries.drop_last().len() && (#[trigger] entries.drop_last()[j]).0@
                        == name;
                assert(entries[j].0@ == entries[i].0@ && j != i);
            }
        }
    } else {
        assert(wf_entries(entries.drop_last())) by {
            assert forall|a: int, b: int|
                0 <= a < b < entries.drop_last().len() implies (#[trigger] entries.drop_last()[
                a
            ]).0@ != (#[trigger] entries.drop_last()[b]).0@ by {
                assert(entries[a].0@ != entries[b].0@);
            }
        }
        assert(entries.drop_last()[i] == entries[i]);
        lemma_table_view_remove(entries.drop_last(), i);
        assert(removed.drop_last() =~= entries.drop_last().remove(i));
        assert(removed.last() == entries.last());
        assert(entries.last().0@ != name);
    }
}

/// The registry: a case-sensitive mapping from program names to programs,
/// each name registered at most once.
pub struct TopLevel {
    programs: Vec<(String, Program)>,
}

impl View for TopLevel {
    type V = Map<Seq<char>, ProgramModel>;

    closed spec fn view(&self) -> Map<Seq<char>, ProgramModel> {
        table_view(self.programs@)
    }
}

impl TopLevel {
    /// The registry's internal invariant: each name registered at most
    /// once.  Established by `new` and preserved by every operation.
    pub closed spec fn wf(&self) -> bool {
        wf_entries(self.programs@)
    }
}

/// The arity-two wrapper program for one binary built-in.
pub open spec fn builtin_program(op: BuiltIn) -> ProgramModel {
    ProgramModel { num_args: 2, commands: seq![CmdModel::BuiltIn(op)] }
}

/// The registry a fresh top level starts with: wrapper programs shadowing
/// the binary built-in operators.
pub open spec fn initial_registry() -> Map<Seq<char>, ProgramModel> {
    Map::empty().insert("add"@, builtin_program(BuiltIn::Add)).insert(
        "sub"@,
        builtin_program(BuiltIn::Sub),
    ).insert("mul"@, builtin_program(BuiltIn::Mul)).insert(
        "div"@,
        builtin_program(BuiltIn::Div),
    ).insert("eq"@, builtin_program(BuiltIn::Eq)).insert(
        "lt"@,
        builtin_program(BuiltIn::Lt),
    ).insert("gt"@, builtin_program(BuiltIn::Gt))
}

/// Appends one named program to the registry's entries.
fn register(programs: &mut Vec<(String, Program)>, name: &'static str, op: BuiltIn)
    ensures
        final(programs)@.len() == old(programs)@.len() + 1,
        forall|j: int|
            0 <= j < old(programs)@.len() ==> final(programs)@[j] == old(programs)@[j],
        final(programs)@.last().0@ == name@,
        final(programs)@.last().1@ == builtin_program(op),
        table_view(final(programs)@) == table_view(old(programs)@).insert(
            name@,
            builtin_program(op),
        ),
{
    let ghost before = programs@;
    let owned: String = name.to_owned();
    let body: Vec<Command> = vec![Command::BuiltIn(op)];
    proof {
        assert(crate::parse::cmd_seq_view(body@).len() == 1) by {
            crate::parse::lemma_cmd_seq_view(body@);
        }
        assert(crate::parse::cmd_seq_view(body@) =~= seq![CmdModel::BuiltIn(op)]) by {
            crate::parse::lemma_cmd_seq_view(body@);
        }
    }
    let program = Program::new(2, body);
    programs.push((owned, program));
    proof {
        assert(programs@.drop_last() =~= before);
    }
}

impl TopLevel {
    /// A fresh registry, pre-populated with the built-in wrapper programs.
    pub fn new() -> (r: TopLevel)
        ensures
            r@ == initial_registry(),
            r.wf(),
    {
        let mut programs: Vec<(String, Program)> = Vec::new();
        register(&mut programs, "add", BuiltIn::Add);
        register(&mut programs, "sub", BuiltIn::Sub);
        register(&mut programs, "mul", BuiltIn::Mul);
        register(&mut programs, "div", BuiltIn::Div);
        register(&mut programs, "eq", BuiltIn::Eq);
        register(&mut programs, "lt", BuiltIn::Lt);
        register(&mut programs, "gt", BuiltIn::Gt);
        proof {
            reveal_strlit("add");
            reveal_strlit("sub");
            reveal_strlit("mul");
            reveal_strlit("div");
            reveal_strlit("eq");
            reveal_strlit("lt");
            reveal_strlit("gt");
            assert("add"@.len() == 3 && "add"@[0] == 'a');
            assert("sub"@.len() == 3 && "sub"@[0] == 's');
            assert("mul"@.len() == 3 && "mul"@[0] == 'm');
            assert("div"@.len() == 3 && "div"@[0] == 'd');
            assert("eq"@.len() == 2 && "eq"@[0] == 'e');
            assert("lt"@.len() == 2 && "lt"@[0] == 'l');
            assert("gt"@.len() == 2 && "gt"@[0] == 'g');
            assert(wf_entries(programs@)) by {
                assert(programs@.len() == 7);
                assert(programs@[0].0@ == "add"@);
                assert(programs@[1].0@ == "sub"@);
                assert(programs@[2].0@ == "mul"@);
                assert(programs@[3].0@ == "div"@);
                assert(programs@[4].0@ == "eq"@);
                assert(programs@[5].0@ == "lt"@);
                assert(programs@[6].0@ == "gt"@);
            }
        }
        TopLevel { programs }
    }

    /// The position of the entry carrying `name`, if any.
    fn find(&self, name: &String) -> (r: Option<usize>)
        requires
            self.wf(),
        ensures
            match r {
                Some(i) => i < self.programs@.len() && self.programs@[i as int].0@ == name@
                    && self@.contains_key(name@) && self@[name@] == self.programs@[i as int].1@,
                None => !self@.contains_key(name@),
            },
    {
        let mut i: usize = 0;
        while i < self.programs.len()
            invariant
                i <= self.programs@.len(),
                wf_entries(self.programs@),
                forall|j: int| 0 <= j < i ==> (#[trigger] self.programs@[j]).0@ != name@,
            decreases self.programs@.len() - i,
        {
            if self.programs[i].0.eq(name) {
                proof {
                    lemma_table_view_get(self.programs@, i as int);
                }
                return Some(i);
            }
            i = i + 1;
        }
        proof {
            lemma_table_view_contains(self.programs@, name@);
        }
        None
    }

    /// Performs one request against the registry: a definition stores its
    /// program under its name, overwriting any earlier one; a call invokes
    /// the named program.
    pub fn apply(&mut self, command: TopLevelCommand) -> (r: Result<Option<i128>, Error>)
        requires
            old(self).wf(),
        ensures
            final(self).wf(),
            match command@ {
                ReqModel::Def { name, num_args, commands } => final(self)@ == old(self)@.insert(
                    name,
                    ProgramModel { num_args: num_args as nat, commands },
                ) && r == Ok::<Option<i128>, Error>(None),
                ReqModel::Call { name, args } => final(self)@ == old(self)@ && (if !old(
                    self,
                )@.contains_key(name) {
                    r matches Err(e) && e@ == ErrModel::ProgramNotFound(name)
                } else {
                    match apply_program(old(self)@[name], args) {
                        Ok(value) => r == Ok::<Option<i128>, Error>(Some(value)),
                        Err(em) => r matches Err(e) && e@ == em,
                    }
                }),
            },
    {
        match command {
            TopLevelCommand::Def { name, num_args, commands } => {
                let program = Program::new(num_args, commands);
                let ghost before = self.programs@;
                match self.find(&name) {
                    Some(i) => {
                        proof {
                            lemma_table_view_remove(before, i as int);
                        }
                        self.programs.remove(i);
                    },
                    None => {
                        proof {
                            lemma_table_view_contains(before, name@);
                        }
                    },
                }
                let ghost mid = self.programs@;
                proof {
                    lemma_table_view_contains(mid, name@);
                    assert(forall|j: int|
                        0 <= j < mid.len() ==> (#[trigger] mid[j]).0@ != name@);
                }
                self.programs.push((name, program));
                proof {
                    assert(self.programs@.drop_last() =~= mid);
                    assert(wf_entries(self.programs@)) by {
                        assert forall|a: int, b: int|
                            0 <= a < b < self.programs@.len() implies (#[trigger] self.programs@[
                            a
                        ]).0@ != (#[trigger] self.programs@[b]).0@ by {
                            assert(self.programs@[a] == mid[a]);
                            if b < self.programs@.len() - 1 {
                                assert(self.programs@[b] == mid[b]);
                            } else {
                                assert(self.programs@[b].0@ == name@);
                            }
                        }
                    }
                    assert(table_view(self.programs@) =~= table_view(before).insert(
                        self.programs@.last().0@,
                        self.programs@.last().1@,
                    ));
                }
                Ok(None)
            },
            TopLevelCommand::Call { name, args } => match self.find(&name) {
                None => Err(Error::ProgramNotFound(name)),
                Some(i) => {
                    let program = &self.programs[i].1;
                    match program.apply(args) {
                        Ok(value) => Ok(Some(value)),
                        Err(e) => Err(e),
                    }
                },
            },
        }
    }

    /// Performs one parsed top-level expression: a list is read as a
    /// request and applied; anything else is returned unevaluated, for the
    /// surrounding reader to echo.
    pub fn interpret(&mut self, sexp: SExp) -> (r: Response)
        requires
            old(self).wf(),
        ensures
            final(self).wf(),
            match sexp@ {
                SExpModel::List(exprs) => match read_request(exprs) {
                    Err(em) => final(self)@ == old(self)@ && (r matches Response::Failed(e) && e@
                        == em),
                    Ok(req) => match req {
                        ReqModel::Def { name, num_args, commands } => final(self)@ == old(
                            self,
                        )@.insert(name, ProgramModel { num_args: num_args as nat, commands }) && r
                            == Response::NoOutput,
                        ReqModel::Call { name, args } => final(self)@ == old(self)@ && (if !old(
                            self,
                        )@.contains_key(name) {
                            r matches Response::Failed(e) && e@ == ErrModel::ProgramNotFound(name)
                        } else {
                            match apply_program(old(self)@[name], args) {
                                Ok(value) => r == Response::Value(value),
                                Err(em) => r matches Response::Failed(e) && e@ == em,
                            }
                        }),
                    },
                },
                _ => final(self)@ == old(self)@ && (r matches Response::Echoed(e) && e@ == sexp@),
            },
    {
        match sexp {
            SExp::List(exprs) => match TopLevelCommand::read(exprs) {
                Err(e) => Response::Failed(e),
                Ok(command) => match self.apply(command) {
                    Ok(None) => Response::NoOutput,
                    Ok(Some(value)) => Response::Value(value),
                    Err(e) => Response::Failed(e),
                },
            },
            other => Response::Echoed(other),
        }
    }
}

/// What one top-level request came to: nothing to print for a successful
/// definition, one integer for a successful call, a structured failure, or
/// the expression itself when it was no list and is echoed unevaluated.
#[derive(Debug, PartialEq)]
pub enum Response {
    NoOutput,
    Value(i128),
    Failed(Error),
    Echoed(SExp),
}

/// Arity enforcement: a program invoked with the wrong number of arguments
/// always fails with `WrongNumberOfArgs` carrying the program's arity and
/// the count supplied — the body is never consulted.
pub proof fn lemma_arity_enforcement(p: ProgramModel, args: Seq<i128>)
    requires
        args.len() != p.num_args,
    ensures
        apply_program(p, args) == Err::<i128, ErrModel>(
            ErrModel::WrongNumberOfArgs { expected: p.num_args, actual: args.len() },
        ),
{
}

/// Idempotent redefinition: defining a name and at once defining it again
/// leaves exactly what the second definition alone would have left, and a
/// lookup of the name finds only the latest program.
pub proof fn lemma_redefinition(
    registry: Map<Seq<char>, ProgramModel>,
    name: Seq<char>,
    first: ProgramModel,
    second: ProgramModel,
)
    ensures
        registry.insert(name, first).insert(name, second) == registry.insert(name, second),
        registry.insert(name, first).insert(name, second)[name] == second,
{
    assert(registry.insert(name, first).insert(name, second) =~= registry.insert(name, second));
}

} // verus!
