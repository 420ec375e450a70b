//! A long-lived interpreter: a frame of built-in actions with a frame of user
//! bindings over it.
use vstd::prelude::*;
use crate::eval::{eval_program, execute, State, MAX_DEPTH};
use crate::scope::{
    key_view, scope_register, Action, Entity, EntityM, FrameM, KeyM, NamePart, Scope,
};
use crate::syntax::Program;
use crate::value::Value;

verus! {

/// The bindings of the built-in actions.
pub open spec fn builtins_frame() -> FrameM {
    seq![
        (seq![KeyM::Word("print"@), KeyM::Gap], EntityM::Action(Action::Print)),
        (
            seq![KeyM::Word("name"@), KeyM::Gap, KeyM::Word("as"@), KeyM::Gap],
            EntityM::Action(Action::Name),
        ),
        (
            seq![KeyM::Word("if"@), KeyM::Gap, KeyM::Word(","@), KeyM::Word("then"@), KeyM::Gap],
            EntityM::Action(Action::If),
        ),
    ]
}

fn word(w: &str) -> (r: NamePart)
    ensures
        r@ == KeyM::Word(w@),
{
    NamePart::Word(String::from_str(w))
}

fn gap() -> (r: NamePart)
    ensures
        r@ == KeyM::Gap,
{
    NamePart::Gap
}

/// A scope of one frame that binds the built-in actions.
pub fn builtins() -> (r: Scope)
    ensures
        r@ == seq![builtins_frame()],
{
    let mut scope = Scope::new();
    let mut print_key: Vec<NamePart> = Vec::new();
    print_key.push(word("print"));
    print_key.push(gap());
    assert(key_view(print_key@) =~= seq![KeyM::Word("print"@), KeyM::Gap]);
    scope.register(print_key, Entity::Action(Action::Print));
    let mut name_key: Vec<NamePart> = Vec::new();
    name_key.push(word("name"));
    name_key.push(gap());
    name_key.push(word("as"));
    name_key.push(gap());
    assert(key_view(name_key@) =~= seq![KeyM::Word("name"@), KeyM::Gap, KeyM::Word("as"@), KeyM::Gap]);
    scope.register(name_key, Entity::Action(Action::Name));
    let mut if_key: Vec<NamePart> = Vec::new();
    if_key.push(word("if"));
    if_key.push(gap());
    if_key.push(word(","));
    if_key.push(word("then"));
    if_key.push(gap());
    assert(key_view(if_key@) =~= seq![
        KeyM::Word("if"@),
        KeyM::Gap,
        KeyM::Word(","@),
        KeyM::Word("then"@),
        KeyM::Gap,
    ]);
    scope.register(if_key, Entity::Action(Action::If));
    assert(scope@[0] =~= builtins_frame());
    assert(scope@ =~= seq![builtins_frame()]);
    scope
}

/// A frame of built-in actions with a frame of user bindings over it.
pub struct Interpreter {
    pub scope: Scope,
}

impl Interpreter {
    /// An interpreter with no user bindings yet.
    pub fn new() -> (r: Interpreter)
        ensures
            r.scope@ == seq![builtins_frame(), FrameM::empty()],
    {
        let mut scope = builtins();
        scope.enter();
        assert(scope@ =~= seq![builtins_frame(), FrameM::empty()]);
        Interpreter { scope }
    }

    /// Binds `name` to the stored value `value` among the user bindings.
    pub fn set(&mut self, name: Vec<NamePart>, value: Value)
        ensures
            final(self).scope@ == scope_register(
                old(self).scope@,
                key_view(name@),
                EntityM::Filler(value@),
            ),
    {
        self.scope.register_filler(name, value);
    }

    /// Evaluates `program` against the bindings made so far; returns its
    /// output and the text it printed. Bindings it makes at its top level stay.
    pub fn execute(&mut self, program: &Program) -> (r: (crate::value::Output, String))
        ensures
            (r.0@, State { scope: final(self).scope@, out: r.1@ }) == eval_program(
                MAX_DEPTH as nat,
                State { scope: old(self).scope@, out: Seq::empty() },
                program@,
            ),
    {
        let mut out = String::new();
        let o = execute(&mut self.scope, program, &mut out);
        (o, out)
    }
}

} // verus!
