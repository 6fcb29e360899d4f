//! The operand stack, its primitive operations, and the named fixed-arity
//! programs that fold command sequences through it.
//!
//! Every operation is specified against the mathematical semantics: the
//! stack primitives against `apply_op`, the command fold against
//! `run_cmds`, and program invocation against `apply_program`.

use vstd::prelude::*;

use crate::parse::{BuiltIn, CmdModel, Command, cmd_seq_view, cmd_view, lemma_cmd_seq_view};
use crate::semantics::{
    ValModel, apply_op, binop_value, builtin_result, cmd_step, cmd_weight, cmds_weight,
    is_binary_numeric, lemma_cmd_step_weight, lemma_run_cmds_unfold, run_cmds, seed_stack,
    stack_weight,
};
use crate::top_level::{ErrModel, Error as TopLevelError};

verus! {

/// An evaluation-time failure.
#[derive(Clone, Copy, Debug, PartialEq, Eq, Structural)]
pub enum Error {
    FinalValueNotAnInteger,
    NotEnoughValues,
    NotANumber,
    NotAnExecutableSequence,
    DivisionByZero,
}

/// A runtime operand: a numeric value, or a quoted command sequence carried
/// as data.
#[derive(Debug, PartialEq)]
pub enum StackValue {
    ExecutableSequence(Vec<Command>),
    Integer(i128),
}

pub open spec fn val_view(v: StackValue) -> ValModel {
    match v {
        StackValue::ExecutableSequence(inner) => ValModel::ExecutableSequence(cmd_seq_view(inner@)),
        StackValue::Integer(value) => ValModel::Integer(value),
    }
}

impl View for StackValue {
    type V = ValModel;

    open spec fn view(&self) -> ValModel {
        val_view(*self)
    }
}

pub open spec fn vals_view(values: Seq<StackValue>) -> Seq<ValModel>
    decreases values,
{
    if values.len() == 0 {
        Seq::empty()
    } else {
        vals_view(values.drop_last()).push(val_view(values.last()))
    }
}

/// `vals_view` maps the view over the sequence, element by element.
pub proof fn lemma_vals_view(values: Seq<StackValue>)
    ensures
        vals_view(values).len() == values.len(),
        forall|i: int|
            0 <= i < values.len() ==> vals_view(values)[i] == val_view(#[trigger] values[i]),
    decreases values.len(),
{
    if values.len() > 0 {
        lemma_vals_view(values.drop_last());
        assert forall|i: int| 0 <= i < values.len() implies vals_view(values)[i] == val_view(
            values[i],
        ) by {
            if i < values.len() - 1 {
                assert(values.drop_last()[i] == values[i]);
                assert(vals_view(values)[i] == vals_view(values.drop_last())[i]);
            } else {
                assert(values.last() == values[i]);
            }
        }
    }
}

impl StackValue {
    /// Succeeds exactly on the numeric variant; a quoted block is not a
    /// number.
    pub fn assert_integer(&self) -> (r: Result<(), Error>)
        ensures
            self@ is Integer ==> r == Ok::<(), Error>(()),
            !(self@ is Integer) ==> r == Err::<(), Error>(Error::NotANumber),
    {
        match self {
            StackValue::Integer(_) => Ok(()),
            _ => Err(Error::NotANumber),
        }
    }

    /// The numeric value, or `NotANumber` for a quoted block.
    pub fn into_integer(self) -> (r: Result<i128, Error>)
        ensures
            match self@ {
                ValModel::Integer(value) => r == Ok::<i128, Error>(value),
                ValModel::ExecutableSequence(_) => r == Err::<i128, Error>(Error::NotANumber),
            },
    {
        match self {
            StackValue::Integer(value) => Ok(value),
            _ => Err(Error::NotANumber),
        }
    }

    /// The quoted commands, or `NotAnExecutableSequence` for a number.
    pub fn into_ex_seq(self) -> (r: Result<Vec<Command>, Error>)
        ensures
            match r {
                Ok(inner) => self@ == ValModel::ExecutableSequence(cmd_seq_view(inner@)),
                Err(e) => self@ is Integer && e == Error::NotAnExecutableSequence,
            },
    {
        match self {
            StackValue::ExecutableSequence(inner) => Ok(inner),
            _ => Err(Error::NotAnExecutableSequence),
        }
    }
}

/// The operand stack: pushed and popped at one end, the top.
#[derive(Debug, PartialEq)]
pub struct Stack(pub Vec<StackValue>);

impl View for Stack {
    type V = Seq<ValModel>;

    open spec fn view(&self) -> Seq<ValModel> {
        vals_view(self.0@)
    }
}

/// A stack-or-failure result, seen through the stack's view.
pub open spec fn stack_res_view(r: Result<Stack, Error>) -> Result<Seq<ValModel>, Error> {
    match r {
        Ok(stack) => Ok(stack@),
        Err(e) => Err(e),
    }
}

impl Stack {
    /// Removes and returns the top value; fails on an empty stack.
    pub fn pop(&mut self) -> (r: Result<StackValue, Error>)
        ensures
            old(self)@.len() == 0 ==> r == Err::<StackValue, Error>(Error::NotEnoughValues)
                && final(self)@ == old(self)@,
            old(self)@.len() > 0 ==> (r matches Ok(v) && v@ == old(self)@.last() && final(self)@
                == old(self)@.drop_last()),
    {
        proof {
            lemma_vals_view(self.0@);
            if self.0@.len() > 0 {
                assert(vals_view(self.0@).drop_last() == vals_view(self.0@.drop_last()));
            }
        }
        match self.0.pop() {
            Some(v) => Ok(v),
            None => Err(Error::NotEnoughValues),
        }
    }

    /// Appends a value on top; always succeeds.
    pub fn push(&mut self, value: StackValue)
        ensures
            final(self)@ == old(self)@.push(value@),
    {
        self.0.push(value);
        proof {
            assert(self.0@.drop_last() =~= old(self).0@);
        }
    }

    /// Exchanges the two topmost values; fails with `NotEnoughValues` if
    /// fewer than two are present.
    pub fn swap(self) -> (r: Result<Stack, Error>)
        ensures
            stack_res_view(r) == apply_op(BuiltIn::Swap, self@),
    {
        let ghost s0 = self@;
        let mut stack = self;
        let v1 = match stack.pop() {
            Ok(v) => v,
            Err(e) => { return Err(e) },
        };
        let v2 = match stack.pop() {
            Ok(v) => v,
            Err(e) => { return Err(e) },
        };
        proof {
            assert(s0.drop_last().last() == s0[s0.len() - 2]);
        }
        stack.push(v1);
        stack.push(v2);
        Ok(stack)
    }

    /// Pops an index `i`, counts the `n` remaining values, and duplicates
    /// the integer found `i` places down from the top onto the top.
    pub fn nget(self) -> (r: Result<Stack, Error>)
        ensures
            stack_res_view(r) == apply_op(BuiltIn::Nget, self@),
    {
        let ghost s0 = self@;
        let mut stack = self;
        let top = match stack.pop() {
            Ok(v) => v,
            Err(e) => { return Err(e) },
        };
        let index = match top.into_integer() {
            Ok(i) => i,
            Err(e) => { return Err(e) },
        };
        proof {
            lemma_vals_view(stack.0@);
        }
        let len: usize = stack.0.len();
        if index < 1 || index > len as i128 {
            return Err(Error::NotEnoughValues);
        }
        let at: usize = len - (index as usize);
        let value: i128 = match &stack.0[at] {
            StackValue::Integer(v) => *v,
            StackValue::ExecutableSequence(_) => { return Err(Error::NotANumber) },
        };
        stack.push(StackValue::Integer(value));
        Ok(stack)
    }

    /// Folds the given commands, in order, into this stack: this is what
    /// `exec` does with a popped quotation.
    pub fn exec(self, commands: Vec<Command>) -> (r: Result<Stack, Error>)
        ensures
            stack_res_view(r) == run_cmds(self@, cmd_seq_view(commands@)),
        decreases stack_weight(self@) + cmds_weight(cmd_seq_view(commands@)), 3nat,
    {
        proof {
            assert(cmd_seq_view(commands@).skip(0) =~= cmd_seq_view(commands@));
        }
        exec_from(self, &commands, 0)
    }
}

/// Folds `commands[i..]` into the stack, command by command.
fn exec_from(stack: Stack, commands: &Vec<Command>, i: usize) -> (r: Result<Stack, Error>)
    requires
        i <= commands@.len(),
    ensures
        stack_res_view(r) == run_cmds(stack@, cmd_seq_view(commands@).skip(i as int)),
    decreases stack_weight(stack@) + cmds_weight(cmd_seq_view(commands@).skip(i as int)), 2nat,
{
    let ghost cs = cmd_seq_view(commands@).skip(i as int);
    proof {
        lemma_cmd_seq_view(commands@);
    }
    if i == commands.len() {
        proof {
            assert(cs =~= Seq::<CmdModel>::empty());
        }
        Ok(stack)
    } else {
        let ghost s0 = stack@;
        proof {
            assert(cs.first() == cmd_view(commands@[i as int]));
            assert(cmds_weight(cs) == cmd_weight(cs.first()) + cmds_weight(cs.drop_first()));
            lemma_run_cmds_unfold(s0, cs);
            assert(cs.drop_first() =~= cmd_seq_view(commands@).skip(i as int + 1));
        }
        match Program::apply_command(stack, &commands[i]) {
            Err(e) => Err(e),
            Ok(s1) => {
                proof {
                    lemma_cmd_step_weight(cmd_view(commands@[i as int]), s0);
                }
                exec_from(s1, commands, i + 1)
            },
        }
    }
}

/// A deep copy of one command tree.
fn clone_command(command: &Command) -> (r: Command)
    ensures
        r@ == command@,
    decreases cmd_weight(command@), 0nat,
{
    match command {
        Command::Integer(value) => Command::Integer(*value),
        Command::BuiltIn(op) => Command::BuiltIn(*op),
        Command::ExecutableSequence(inner) => {
            proof {
                assert(cmd_seq_view(inner@).skip(0) =~= cmd_seq_view(inner@));
            }
            let copy = clone_commands_from(inner, 0);
            Command::ExecutableSequence(copy)
        },
    }
}

/// A deep copy of `commands[i..]`.
fn clone_commands_from(commands: &Vec<Command>, i: usize) -> (r: Vec<Command>)
    requires
        i <= commands@.len(),
    ensures
        cmd_seq_view(r@) == cmd_seq_view(commands@).skip(i as int),
    decreases cmds_weight(cmd_seq_view(commands@).skip(i as int)), 1nat,
{
    let ghost cs = cmd_seq_view(commands@).skip(i as int);
    proof {
        lemma_cmd_seq_view(commands@);
    }
    if i == commands.len() {
        let r: Vec<Command> = Vec::new();
        proof {
            assert(cmd_seq_view(r@) =~= Seq::<CmdModel>::empty());
            assert(cs =~= Seq::<CmdModel>::empty());
        }
        r
    } else {
        proof {
            assert(cs.first() == cmd_view(commands@[i as int]));
            assert(cmds_weight(cs) == cmd_weight(cs.first()) + cmds_weight(cs.drop_first()));
            assert(cs.drop_first() =~= cmd_seq_view(commands@).skip(i as int + 1));
        }
        let head = clone_command(&commands[i]);
        let mut rest = clone_commands_from(commands, i + 1);
        let ghost tail = rest@;
        rest.insert(0, head);
        proof {
            lemma_cmd_seq_view(tail);
            lemma_cmd_seq_view(rest@);
            assert(rest@ =~= tail.insert(0, head));
            assert forall|k: int| 0 <= k < cmd_seq_view(rest@).len() implies cmd_seq_view(rest@)[k]
                == cs[k] by {
                if k == 0 {
                    assert(rest@[0] == head);
                } else {
                    assert(rest@[k] == tail[k - 1]);
                    assert(cmd_seq_view(tail)[k - 1] == cmd_view(tail[k - 1]));
                    assert(cs[k] == cmd_seq_view(commands@)[i + k]);
                }
            }
            assert(cmd_seq_view(rest@) =~= cs);
        }
        rest
    }
}

/// `v2 <op> v1` for a binary numeric operator, with wrapping 128-bit
/// semantics; comparisons yield one or zero.
fn binop_exec(op: BuiltIn, v2: i128, v1: i128) -> (r: i128)
    requires
        is_binary_numeric(op),
        (op is Div || op is Rem) ==> v1 != 0,
    ensures
        r == binop_value(op, v2, v1),
{
    match op {
        BuiltIn::Add => v2.wrapping_add(v1),
        BuiltIn::Sub => v2.wrapping_sub(v1),
        BuiltIn::Mul => v2.wrapping_mul(v1),
        BuiltIn::Div => match v2.checked_div(v1) {
            Some(q) => q,
            None => i128::MIN,
        },
        BuiltIn::Rem => match v2.checked_rem(v1) {
            Some(m) => m,
            None => 0,
        },
        BuiltIn::Eq => if v2 == v1 {
            1
        } else {
            0
        },
        BuiltIn::Gt => if v2 > v1 {
            1
        } else {
            0
        },
        BuiltIn::Lt => if v2 < v1 {
            1
        } else {
            0
        },
        _ => {
            proof {
                assert(false);
            }
            vstd::pervasive::unreached()
        },
    }
}

/// A named program's body and arity; the name itself lives in the registry.
#[derive(Debug, PartialEq)]
pub struct Program {
    num_args: usize,
    commands: Vec<Command>,
}

/// The mathematical shape of a [`Program`].
pub struct ProgramModel {
    pub num_args: nat,
    pub commands: Seq<CmdModel>,
}

impl View for Program {
    type V = ProgramModel;

    closed spec fn view(&self) -> ProgramModel {
        ProgramModel { num_args: self.num_args as nat, commands: cmd_seq_view(self.commands@) }
    }
}

/// What invoking a program yields: the arity is checked, the stack is
/// seeded with the arguments in reverse order (first argument on top), the
/// body is folded through it, and exactly one integer is popped off the
/// result; anything below it is discarded.
pub open spec fn apply_program(p: ProgramModel, args: Seq<i128>) -> Result<i128, ErrModel> {
    if args.len() != p.num_args {
        Err(ErrModel::WrongNumberOfArgs { expected: p.num_args, actual: args.len() })
    } else {
        match run_cmds(seed_stack(args), p.commands) {
            Err(e) => Err(ErrModel::ProgramError(e)),
            Ok(stack) => if stack.len() == 0 {
                Err(ErrModel::ProgramError(Error::NotEnoughValues))
            } else {
                match stack.last() {
                    ValModel::Integer(value) => Ok(value),
                    ValModel::ExecutableSequence(_) => Err(
                        ErrModel::ProgramError(Error::FinalValueNotAnInteger),
                    ),
                }
            },
        }
    }
}

impl Program {
    /// A program with the given arity and body.
    pub fn new(num_args: usize, commands: Vec<Command>) -> (r: Program)
        ensures
            r@ == (ProgramModel {
                num_args: num_args as nat,
                commands: cmd_seq_view(commands@),
            }),
    {
        Program { num_args, commands }
    }

    /// Invokes the program on the given arguments.
    pub fn apply(&self, args: Vec<i128>) -> (r: Result<i128, TopLevelError>)
        ensures
            match r {
                Ok(value) => apply_program(self@, args@) == Ok::<i128, ErrModel>(value),
                Err(e) => apply_program(self@, args@) == Err::<i128, ErrModel>(e@),
            },
    {
        let num_args: usize = args.len();
        if self.num_args != num_args {
            return Err(
                TopLevelError::WrongNumberOfArgs { expected: self.num_args, actual: num_args },
            );
        }
        let mut stack = Stack(Vec::new());
        let mut j: usize = num_args;
        while j > 0
            invariant
                j <= num_args,
                num_args == args@.len(),
                stack@.len() == num_args - j,
                forall|k: int|
                    0 <= k < stack@.len() ==> #[trigger] stack@[k] == ValModel::Integer(
                        args@[num_args - 1 - k],
                    ),
            decreases j,
        {
            j = j - 1;
            stack.push(StackValue::Integer(args[j]));
        }
        proof {
            assert(stack@ =~= seed_stack(args@));
            assert(cmd_seq_view(self.commands@).skip(0) =~= cmd_seq_view(self.commands@));
        }
        match exec_from(stack, &self.commands, 0) {
            Err(e) => Err(TopLevelError::ProgramError(e)),
            Ok(mut final_stack) => match final_stack.pop() {
                Err(e) => Err(TopLevelError::ProgramError(e)),
                Ok(v) => match v {
                    StackValue::Integer(value) => Ok(value),
                    StackValue::ExecutableSequence(_) => Err(
                        TopLevelError::ProgramError(Error::FinalValueNotAnInteger),
                    ),
                },
            },
        }
    }

    /// Runs one command against the stack: an integer pushes its value, a
    /// quoted sequence pushes a copy of itself unevaluated, a built-in is
    /// invoked.
    pub fn apply_command(stack: Stack, command: &Command) -> (r: Result<Stack, Error>)
        ensures
            stack_res_view(r) == cmd_step(command@, stack@),
        decreases stack_weight(stack@) + cmd_weight(command@), 1nat,
    {
        match command {
            Command::Integer(value) => {
                let mut stack = stack;
                stack.push(StackValue::Integer(*value));
                Ok(stack)
            },
            Command::ExecutableSequence(inner) => {
                proof {
                    assert(cmd_seq_view(inner@).skip(0) =~= cmd_seq_view(inner@));
                }
                let copy = clone_commands_from(inner, 0);
                let mut stack = stack;
                stack.push(StackValue::ExecutableSequence(copy));
                Ok(stack)
            },
            Command::BuiltIn(op) => Program::apply_builtin(stack, op),
        }
    }

    /// Invokes one built-in operator on the stack.
    pub fn apply_builtin(stack: Stack, builtin: &BuiltIn) -> (r: Result<Stack, Error>)
        ensures
            stack_res_view(r) == builtin_result(*builtin, stack@),
        decreases stack_weight(stack@) + 1, 0nat,
    {
        let ghost s0 = stack@;
        match builtin {
            BuiltIn::Add | BuiltIn::Sub | BuiltIn::Mul | BuiltIn::Div | BuiltIn::Rem
            | BuiltIn::Eq | BuiltIn::Gt | BuiltIn::Lt => Program::apply_binary(stack, *builtin),
            BuiltIn::Pop => {
                let mut stack = stack;
                match stack.pop() {
                    Ok(_) => Ok(stack),
                    Err(e) => Err(e),
                }
            },
            BuiltIn::Swap => stack.swap(),
            BuiltIn::Sel => {
                let mut stack = stack;
                let v1 = match stack.pop() {
                    Ok(v) => v,
                    Err(e) => { return Err(e) },
                };
                let v2 = match stack.pop() {
                    Ok(v) => v,
                    Err(e) => { return Err(e) },
                };
                let v3 = match stack.pop() {
                    Ok(v) => v,
                    Err(e) => { return Err(e) },
                };
                proof {
                    assert(s0.drop_last().last() == s0[s0.len() - 2]);
                    assert(s0.drop_last().drop_last().last() == s0[s0.len() - 3]);
                }
                let condition = match v3.into_integer() {
                    Ok(c) => c,
                    Err(e) => { return Err(e) },
                };
                if condition == 0 {
                    stack.push(v1);
                } else {
                    stack.push(v2);
                }
                Ok(stack)
            },
            BuiltIn::Nget => stack.nget(),
            BuiltIn::Exec => {
                let mut stack = stack;
                let top = match stack.pop() {
                    Ok(v) => v,
                    Err(e) => { return Err(e) },
                };
                match top.into_ex_seq() {
                    Err(e) => Err(e),
                    Ok(inner) => {
                        proof {
                            assert(stack_weight(s0) == stack_weight(stack@) + cmds_weight(
                                cmd_seq_view(inner@),
                            ));
                        }
                        stack.exec(inner)
                    },
                }
            },
        }
    }

    /// Shared body of the eight binary numeric operators: pop `v1`, pop
    /// `v2`, both integers, push `v2 <op> v1`.
    fn apply_binary(stack: Stack, op: BuiltIn) -> (r: Result<Stack, Error>)
        requires
            is_binary_numeric(op),
        ensures
            stack_res_view(r) == apply_op(op, stack@),
    {
        let ghost s0 = stack@;
        let mut stack = stack;
        let t1 = match stack.pop() {
            Ok(v) => v,
            Err(e) => { return Err(e) },
        };
        let v1 = match t1.into_integer() {
            Ok(v) => v,
            Err(e) => { return Err(e) },
        };
        let t2 = match stack.pop() {
            Ok(v) => v,
            Err(e) => { return Err(e) },
        };
        let v2 = match t2.into_integer() {
            Ok(v) => v,
            Err(e) => { return Err(e) },
        };
        proof {
            assert(s0.drop_last().last() == s0[s0.len() - 2]);
        }
        let divides = match op {
            BuiltIn::Div | BuiltIn::Rem => true,
            _ => false,
        };
        if divides && v1 == 0 {
            return Err(Error::DivisionByZero);
        }
        let value = binop_exec(op, v2, v1);
        stack.push(StackValue::Integer(value));
        Ok(stack)
    }
}

} // verus!
