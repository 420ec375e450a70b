//! Evaluation: each command's words form a dispatch key, its strings and
//! fillers the arguments; the key is resolved through the scope chain and the
//! action it names is run. A thrown value stops the program it occurs in.
//!
//! Every nested evaluation (a filler, a branch of `if`) spends one unit of a
//! nesting budget; when none is left, the nested evaluation throws an error
//! instead of running, so every evaluation ends.
use vstd::prelude::*;
use vstd::string::StringExecFns;
use crate::scope::{
    key_view, scope_enter, scope_find, scope_register, Action, Entity, EntityM, FrameM, KeyM,
    NamePart, Scope,
};
use crate::syntax::{parse, parse_text, CommandM, PartM, Program};
use crate::syntax;
use crate::value::{display_of, error, truthy, Filler, Output, OutputM, Value, ValueM};

verus! {

/// The nesting budget of a top-level evaluation.
pub const MAX_DEPTH: usize = 200;

/// What evaluation reads and changes: the scope chain and the text written
/// so far.
pub struct State {
    pub scope: Seq<FrameM>,
    pub out: Seq<char>,
}

/// The dispatch key of a command: its words, with a gap for each string or
/// filler.
pub open spec fn key_of(parts: Seq<PartM>) -> Seq<KeyM> {
    parts.map_values(
        |p: PartM|
            match p {
                PartM::Word(w) => KeyM::Word(w),
                _ => KeyM::Gap,
            },
    )
}

pub open spec fn key_part_text(p: KeyM) -> Seq<char> {
    match p {
        KeyM::Word(w) => w,
        KeyM::Gap => "{}"@,
    }
}

/// A key as text: its parts separated by spaces, a gap shown as `{}`.
pub open spec fn render_key(k: Seq<KeyM>) -> Seq<char>
    decreases k.len(),
{
    if k.len() == 0 {
        Seq::empty()
    } else if k.len() == 1 {
        key_part_text(k[0])
    } else {
        render_key(k.drop_last()) + " "@ + key_part_text(k.last())
    }
}

pub open spec fn not_found_message(k: Seq<KeyM>) -> Seq<char> {
    "name not found: "@ + render_key(k)
}

pub open spec fn too_deep_message() -> Seq<char> {
    "nesting too deep"@
}

pub open spec fn arity_message() -> Seq<char> {
    "wrong number of arguments"@
}

pub open spec fn name_not_string_message() -> Seq<char> {
    "the name is not a string"@
}

pub open spec fn bad_name_message() -> Seq<char> {
    "bad name"@
}

pub open spec fn branch_not_string_message() -> Seq<char> {
    "the branch is not a string"@
}

pub open spec fn branch_unparsable_message() -> Seq<char> {
    "couldn't parse the branch as a program"@
}

/// Whether every part is a word.
pub open spec fn all_words(parts: Seq<PartM>) -> bool {
    forall|i: int| 0 <= i < parts.len() ==> parts[i] is Word
}

/// The key that text `t` names: the words of its single command, when it
/// parses to exactly one command made of words alone.
pub open spec fn name_key(t: Seq<char>) -> Option<Seq<KeyM>> {
    match parse_text(t) {
        Ok(p) => if p.len() == 1 && all_words(p[0].parts) {
            Some(key_of(p[0].parts))
        } else {
            None
        },
        Err(_) => None,
    }
}

/// The state after a nested evaluation: its frame is dropped.
pub open spec fn leave_state(st: State) -> State {
    State { scope: st.scope.drop_last(), out: st.out }
}

pub open spec fn enter_state(st: State) -> State {
    State { scope: scope_enter(st.scope), out: st.out }
}

/// Runs commands `i..` of `cmds`, `last` being the last value so far.
pub open spec fn run_commands(fuel: nat, st: State, cmds: Seq<CommandM>, i: int, last: ValueM) -> (
    OutputM,
    State,
)
    decreases fuel, 2int, cmds.len() - i,
{
    if i < 0 || i >= cmds.len() {
        (OutputM::LastValue(last), st)
    } else {
        let (args, st1) = run_parts(fuel, st, cmds[i].parts, 0, Seq::empty());
        match args {
            Err(v) => (OutputM::Thrown(v), st1),
            Ok(args) => {
                let key = key_of(cmds[i].parts);
                match scope_find(st1.scope, key) {
                    None => (OutputM::Thrown(ValueM::Error(not_found_message(key))), st1),
                    Some(EntityM::Filler(v)) => run_commands(fuel, st1, cmds, i + 1, v),
                    Some(EntityM::Action(a)) => {
                        let (o, st2) = invoke(fuel, a, st1, args);
                        match o {
                            OutputM::Thrown(v) => (OutputM::Thrown(v), st2),
                            OutputM::Returned(v) => run_commands(fuel, st2, cmds, i + 1, v),
                            OutputM::LastValue(v) => run_commands(fuel, st2, cmds, i + 1, v),
                        }
                    },
                }
            },
        }
    }
}

/// Evaluates the arguments among parts `j..`, after `args`: a string as it
/// stands, a filler by running it in a new frame; `Err` carries a value that
/// a filler threw.
pub open spec fn run_parts(fuel: nat, st: State, parts: Seq<PartM>, j: int, args: Seq<ValueM>) -> (
    Result<Seq<ValueM>, ValueM>,
    State,
)
    decreases fuel, 1int, parts.len() - j,
{
    if j < 0 || j >= parts.len() {
        (Ok(args), st)
    } else {
        match parts[j] {
            PartM::Word(_) => run_parts(fuel, st, parts, j + 1, args),
            PartM::Str(t) => run_parts(fuel, st, parts, j + 1, args.push(ValueM::Str(t))),
            PartM::Filler(p) => if fuel == 0 {
                (Err(ValueM::Error(too_deep_message())), st)
            } else {
                let (o, st2) = run_commands(
                    (fuel - 1) as nat,
                    enter_state(st),
                    p,
                    0,
                    ValueM::Nothing,
                );
                match o {
                    OutputM::Thrown(v) => (Err(v), leave_state(st2)),
                    OutputM::Returned(v) => run_parts(
                        fuel,
                        leave_state(st2),
                        parts,
                        j + 1,
                        args.push(v),
                    ),
                    OutputM::LastValue(v) => run_parts(
                        fuel,
                        leave_state(st2),
                        parts,
                        j + 1,
                        args.push(v),
                    ),
                }
            },
        }
    }
}

/// Runs a built-in action on evaluated arguments.
pub open spec fn invoke(fuel: nat, a: Action, st: State, args: Seq<ValueM>) -> (OutputM, State)
    decreases fuel, 0int, 0int,
{
    match a {
        Action::Print => if args.len() != 1 {
            (OutputM::Thrown(ValueM::Error(arity_message())), st)
        } else {
            (
                OutputM::Returned(ValueM::Nothing),
                State { scope: st.scope, out: st.out + display_of(args[0]) + "\n"@ },
            )
        },
        Action::Name => if args.len() != 2 {
            (OutputM::Thrown(ValueM::Error(arity_message())), st)
        } else {
            match args[1] {
                ValueM::Str(t) => match name_key(t) {
                    Some(k) => (
                        OutputM::Returned(ValueM::Nothing),
                        State {
                            scope: scope_register(st.scope, k, EntityM::Filler(args[0])),
                            out: st.out,
                        },
                    ),
                    None => (OutputM::Thrown(ValueM::Error(bad_name_message())), st),
                },
                _ => (OutputM::Thrown(ValueM::Error(name_not_string_message())), st),
            }
        },
        Action::If => if args.len() != 2 {
            (OutputM::Thrown(ValueM::Error(arity_message())), st)
        } else if !truthy(args[0]) {
            (OutputM::Returned(ValueM::Nothing), st)
        } else {
            match args[1] {
                ValueM::Str(t) => match parse_text(t) {
                    Err(_) => (OutputM::Thrown(ValueM::Error(branch_unparsable_message())), st),
                    Ok(p) => if fuel == 0 {
                        (OutputM::Thrown(ValueM::Error(too_deep_message())), st)
                    } else {
                        let (o, st2) = run_commands(
                            (fuel - 1) as nat,
                            enter_state(st),
                            p,
                            0,
                            ValueM::Nothing,
                        );
                        match o {
                            OutputM::Thrown(v) => (OutputM::Thrown(v), leave_state(st2)),
                            _ => (OutputM::Returned(ValueM::Nothing), leave_state(st2)),
                        }
                    },
                },
                _ => (OutputM::Thrown(ValueM::Error(branch_not_string_message())), st),
            }
        },
    }
}

/// Evaluates a program with nesting budget `fuel`.
pub open spec fn eval_program(fuel: nat, st: State, cmds: Seq<CommandM>) -> (OutputM, State) {
    run_commands(fuel, st, cmds, 0, ValueM::Nothing)
}

fn message(text: &str) -> (r: Value)
    ensures
        r@ == ValueM::Error(text@),
{
    error(String::from_str(text))
}

/// A key as text: its parts separated by spaces, a gap shown as `{}`.
pub fn render(key: &Vec<NamePart>) -> (r: String)
    ensures
        r@ == render_key(key_view(key@)),
{
    let ghost k = key_view(key@);
    let mut r = String::new();
    let mut i: usize = 0;
    while i < key.len()
        invariant
            k == key_view(key@),
            i <= key.len(),
            r@ == render_key(k.take(i as int)),
        decreases key.len() - i,
    {
        if i > 0 {
            r.append(" ");
        }
        match &key[i] {
            NamePart::Word(w) => r.append(w.as_str()),
            NamePart::Gap => r.append("{}"),
        }
        assert(k.take(i + 1).drop_last() =~= k.take(i as int));
        assert(k.take(i + 1).last() == k[i as int]);
        i = i + 1;
    }
    assert(k.take(key.len() as int) =~= k);
    r
}

/// The dispatch key of a command with these parts: its words, with a gap for
/// each string or filler.
pub fn dispatch_key(parts: &Vec<syntax::NamePart>) -> (r: Vec<NamePart>)
    ensures
        key_view(r@) == key_of(syntax::view_parts(parts@)),
{
    let ghost ps = syntax::view_parts(parts@);
    let mut r: Vec<NamePart> = Vec::new();
    let mut i: usize = 0;
    while i < parts.len()
        invariant
            ps == syntax::view_parts(parts@),
            i <= parts.len(),
            key_view(r@) =~= key_of(ps).take(i as int),
        decreases parts.len() - i,
    {
        let p = match &parts[i] {
            syntax::NamePart::Word(w) => NamePart::Word(w.clone()),
            _ => NamePart::Gap,
        };
        let ghost old_r = r@;
        r.push(p);
        assert(key_view(r@) =~= key_view(old_r).push(p@));
        assert(key_view(r@) =~= key_of(ps).take(i + 1));
        i = i + 1;
    }
    assert(key_of(ps).take(parts.len() as int) =~= key_of(ps));
    r
}

/// The key that text `t` names, when it parses to exactly one command made of
/// words alone.
#[verifier::loop_isolation(false)]
pub fn name_key_of(t: &String) -> (r: Option<Vec<NamePart>>)
    ensures
        match (r, name_key(t@)) {
            (Some(k), Some(m)) => key_view(k@) == m,
            (None, None) => true,
            _ => false,
        },
{
    match parse(t.as_str()) {
        Err(_) => None,
        Ok(p) => {
            if p.commands.len() != 1 {
                return None;
            }
            let parts = &p.commands[0].parts;
            assert(p@[0].parts =~= syntax::view_parts(parts@));
            let mut i: usize = 0;
            while i < parts.len()
                invariant
                    i <= parts.len(),
                    forall|j: int| 0 <= j < i ==> parts@[j]@ is Word,
                decreases parts.len() - i,
            {
                match &parts[i] {
                    syntax::NamePart::Word(_) => {},
                    _ => {
                        assert(syntax::view_parts(parts@)[i as int] == parts@[i as int]@);
                        return None;
                    },
                }
                i = i + 1;
            }
            Some(dispatch_key(parts))
        },
    }
}

pub open spec fn values_view(v: Seq<Value>) -> Seq<ValueM> {
    v.map_values(|x: Value| x@)
}

/// Runs commands in order; a thrown value ends the run at once.
fn run_program(scope: &mut Scope, out: &mut String, cmds: &Vec<syntax::Command>, fuel: usize) -> (r: Output)
    ensures
        (r@, State { scope: final(scope)@, out: final(out)@ }) == run_commands(
            fuel as nat,
            State { scope: old(scope)@, out: old(out)@ },
            syntax::view_commands(cmds@),
            0,
            ValueM::Nothing,
        ),
        final(scope)@.len() == old(scope)@.len(),
    decreases fuel, 2int,
{
    let ghost st0 = State { scope: scope@, out: out@ };
    let ghost cm = syntax::view_commands(cmds@);
    let ghost n0 = scope@.len();
    let mut last = Value::nothing();
    let mut i: usize = 0;
    while i < cmds.len()
        invariant
            i <= cmds.len(),
            scope@.len() == n0,
            st0 == (State { scope: old(scope)@, out: old(out)@ }),
            n0 == old(scope)@.len(),
            cm == syntax::view_commands(cmds@),
            run_commands(fuel as nat, st0, cm, 0, ValueM::Nothing) == run_commands(
                fuel as nat,
                State { scope: scope@, out: out@ },
                cm,
                i as int,
                last@,
            ),
        decreases cmds.len() - i,
    {
        let cmd = &cmds[i];
        assert(cm[i as int].parts =~= syntax::view_parts(cmd.parts@));
        let args = match run_args(scope, out, &cmd.parts, fuel) {
            Err(v) => {
                return Output::Thrown(v);
            },
            Ok(a) => a,
        };
        let key = dispatch_key(&cmd.parts);
        match scope.find(&key) {
            None => {
                let mut m = String::from_str("name not found: ");
                let shown = render(&key);
                m.append(shown.as_str());
                return Output::Thrown(error(m));
            },
            Some(Entity::Filler(v)) => {
                last = v;
            },
            Some(Entity::Action(a)) => {
                match invoke_action(scope, out, a, args, fuel) {
                    Output::Thrown(v) => {
                        return Output::Thrown(v);
                    },
                    Output::Returned(v) => {
                        last = v;
                    },
                    Output::LastValue(v) => {
                        last = v;
                    },
                }
            },
        }
        i = i + 1;
    }
    Output::LastValue(last)
}

/// Evaluates a command's arguments left to right, each filler in a frame of
/// its own.
fn run_args(scope: &mut Scope, out: &mut String, parts: &Vec<syntax::NamePart>, fuel: usize) -> (r:
    Result<Vec<Value>, Value>)
    ensures
        ({
            let (m, st) = run_parts(
                fuel as nat,
                State { scope: old(scope)@, out: old(out)@ },
                syntax::view_parts(parts@),
                0,
                Seq::empty(),
            );
            &&& st == State { scope: final(scope)@, out: final(out)@ }
            &&& match (r, m) {
                (Ok(v), Ok(vm)) => values_view(v@) == vm,
                (Err(v), Err(vm)) => v@ == vm,
                _ => false,
            }
        }),
        final(scope)@.len() == old(scope)@.len(),
    decreases fuel, 1int,
{
    let ghost st0 = State { scope: scope@, out: out@ };
    let ghost ps = syntax::view_parts(parts@);
    let ghost n0 = scope@.len();
    let mut args: Vec<Value> = Vec::new();
    assert(values_view(args@) =~= Seq::empty());
    let mut j: usize = 0;
    while j < parts.len()
        invariant
            j <= parts.len(),
            scope@.len() == n0,
            st0 == (State { scope: old(scope)@, out: old(out)@ }),
            n0 == old(scope)@.len(),
            ps == syntax::view_parts(parts@),
            run_parts(fuel as nat, st0, ps, 0, Seq::empty()) == run_parts(
                fuel as nat,
                State { scope: scope@, out: out@ },
                ps,
                j as int,
                values_view(args@),
            ),
        decreases parts.len() - j,
    {
        let ghost old_args = args@;
        match &parts[j] {
            syntax::NamePart::Word(_) => {},
            syntax::NamePart::String(t) => {
                args.push(Value::string(t.clone()));
                assert(values_view(args@) =~= values_view(old_args).push(ValueM::Str(t@)));
            },
            syntax::NamePart::Filler(p) => {
                if fuel == 0 {
                    return Err(message("nesting too deep"));
                }
                assert(p@ =~= syntax::view_commands(p.commands@));
                scope.enter();
                let o = run_program(scope, out, &p.commands, fuel - 1);
                scope.leave();
                match o {
                    Output::Thrown(v) => {
                        return Err(v);
                    },
                    Output::Returned(v) => {
                        args.push(v);
                    },
                    Output::LastValue(v) => {
                        args.push(v);
                    },
                }
                assert(values_view(args@) =~= values_view(old_args).push(args@.last()@));
            },
        }
        j = j + 1;
    }
    Ok(args)
}

/// Runs built-in action `a` on evaluated arguments `args` with nesting budget
/// `fuel`, in `scope`, appending what it prints to `out`.
pub fn invoke_action(scope: &mut Scope, out: &mut String, a: Action, args: Vec<Value>, fuel: usize) -> (r:
    Output)
    ensures
        (r@, State { scope: final(scope)@, out: final(out)@ }) == invoke(
            fuel as nat,
            a,
            State { scope: old(scope)@, out: old(out)@ },
            values_view(args@),
        ),
        final(scope)@.len() == old(scope)@.len(),
    decreases fuel, 0int,
{
    proof {
        reveal_strlit("\n");
    }
    match a {
        Action::Print => {
            if args.len() != 1 {
                return Output::Thrown(message("wrong number of arguments"));
            }
            let d = args[0].display();
            out.append(d.as_str());
            out.append("\n");
            Output::Returned(Value::nothing())
        },
        Action::Name => {
            if args.len() != 2 {
                return Output::Thrown(message("wrong number of arguments"));
            }
            match &args[1] {
                Value::PonString(s) => match name_key_of(&s.content) {
                    Some(k) => {
                        let v = args[0].to_value();
                        scope.register(k, Entity::Filler(v));
                        Output::Returned(Value::nothing())
                    },
                    None => Output::Thrown(message("bad name")),
                },
                _ => Output::Thrown(message("the name is not a string")),
            }
        },
        Action::If => {
            if args.len() != 2 {
                return Output::Thrown(message("wrong number of arguments"));
            }
            if !args[0].bool() {
                return Output::Returned(Value::nothing());
            }
            match &args[1] {
                Value::PonString(s) => match parse(s.content.as_str()) {
                    Err(_) => Output::Thrown(message("couldn't parse the branch as a program")),
                    Ok(p) => {
                        if fuel == 0 {
                            return Output::Thrown(message("nesting too deep"));
                        }
                        assert(p@ =~= syntax::view_commands(p.commands@));
                        scope.enter();
                        let o = run_program(scope, out, &p.commands, fuel - 1);
                        scope.leave();
                        match o {
                            Output::Thrown(v) => Output::Thrown(v),
                            _ => Output::Returned(Value::nothing()),
                        }
                    },
                },
                _ => Output::Thrown(message("the branch is not a string")),
            }
        },
    }
}

/// An evaluator with a given nesting budget.
pub struct Executor {
    pub depth: usize,
}

impl Executor {
    /// Evaluates `program` in `scope` with this executor's nesting budget,
    /// appending what it prints to `out`.
    pub fn execute(&self, scope: &mut Scope, program: &Program, out: &mut String) -> (r: Output)
        ensures
            (r@, State { scope: final(scope)@, out: final(out)@ }) == eval_program(
                self.depth as nat,
                State { scope: old(scope)@, out: old(out)@ },
                program@,
            ),
            final(scope)@.len() == old(scope)@.len(),
    {
        assert(program@ =~= syntax::view_commands(program.commands@));
        run_program(scope, out, &program.commands, self.depth)
    }
}

/// Evaluates `program` in `scope` with the full nesting budget, appending
/// what it prints to `out`.
pub fn execute(scope: &mut Scope, program: &Program, out: &mut String) -> (r: Output)
    ensures
        (r@, State { scope: final(scope)@, out: final(out)@ }) == eval_program(
            MAX_DEPTH as nat,
            State { scope: old(scope)@, out: old(out)@ },
            program@,
        ),
        final(scope)@.len() == old(scope)@.len(),
{
    let executor = Executor { depth: MAX_DEPTH };
    executor.execute(scope, program, out)
}

} // verus!
