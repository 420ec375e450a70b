//! The values that Pon programs compute: strings, nothing, and errors.
use vstd::prelude::*;
use vstd::string::StringExecFns;

verus! {

/// The mathematical form of a value.
pub enum ValueM {
    Str(Seq<char>),
    Nothing,
    Error(Seq<char>),
}

/// A string value.
#[derive(Debug)]
pub struct PonString {
    pub content: String,
}

/// The value of a program that computed nothing.
#[derive(Debug)]
pub struct Nothing {}

/// An error value, carrying its message.
#[derive(Debug)]
pub struct Error {
    pub text: String,
}

/// A value of any of the kinds above.
#[derive(Debug)]
pub enum Value {
    PonString(PonString),
    Nothing(Nothing),
    Error(Error),
}

impl View for Value {
    type V = ValueM;

    open spec fn view(&self) -> ValueM {
        match self {
            Value::PonString(s) => ValueM::Str(s.content@),
            Value::Nothing(_) => ValueM::Nothing,
            Value::Error(e) => ValueM::Error(e.text@),
        }
    }
}

pub open spec fn nothing_text() -> Seq<char> {
    seq!['n', 'o', 't', 'h', 'i', 'n', 'g']
}

pub open spec fn error_prefix() -> Seq<char> {
    seq!['E', 'r', 'r', 'o', 'r', ' ', '{', ' ']
}

pub open spec fn error_suffix() -> Seq<char> {
    seq![' ', '}']
}

/// The text that displays a value.
pub open spec fn display_of(v: ValueM) -> Seq<char> {
    match v {
        ValueM::Str(s) => s,
        ValueM::Nothing => nothing_text(),
        ValueM::Error(t) => error_prefix() + t + error_suffix(),
    }
}

/// Whether a value counts as true: a non-empty string.
pub open spec fn truthy(v: ValueM) -> bool {
    match v {
        ValueM::Str(s) => s.len() > 0,
        _ => false,
    }
}

/// What every value offers: its mathematical form, how it displays, and
/// whether it counts as true.
pub trait Filler {
    spec fn value(&self) -> ValueM;

    /// The text that displays the value.
    fn display(&self) -> (r: String)
        ensures
            r@ == display_of(self.value()),
    ;

    /// Whether the value counts as true.
    fn bool(&self) -> (r: bool)
        ensures
            r == truthy(self.value()),
    ;

    /// A copy of the value, as a `Value`.
    fn to_value(&self) -> (r: Value)
        ensures
            r@ == self.value(),
    ;
}

fn nothing_string() -> (r: String)
    ensures
        r@ == nothing_text(),
{
    proof {
        reveal_strlit("nothing");
    }
    String::from_str("nothing")
}

fn error_string(text: &String) -> (r: String)
    ensures
        r@ == error_prefix() + text@ + error_suffix(),
{
    proof {
        reveal_strlit("Error { ");
        reveal_strlit(" }");
    }
    let mut r = String::from_str("Error { ");
    r.append(text.as_str());
    r.append(" }");
    r
}

impl Filler for PonString {
    open spec fn value(&self) -> ValueM {
        ValueM::Str(self.content@)
    }

    fn display(&self) -> (r: String) {
        self.content.clone()
    }

    fn bool(&self) -> (r: bool) {
        !self.content.as_str().is_empty()
    }

    fn to_value(&self) -> (r: Value) {
        Value::PonString(PonString { content: self.content.clone() })
    }
}

impl Filler for Nothing {
    open spec fn value(&self) -> ValueM {
        ValueM::Nothing
    }

    fn display(&self) -> (r: String) {
        nothing_string()
    }

    fn bool(&self) -> (r: bool) {
        false
    }

    fn to_value(&self) -> (r: Value) {
        Value::Nothing(Nothing {  })
    }
}

impl Filler for Error {
    open spec fn value(&self) -> ValueM {
        ValueM::Error(self.text@)
    }

    fn display(&self) -> (r: String) {
        error_string(&self.text)
    }

    fn bool(&self) -> (r: bool) {
        false
    }

    fn to_value(&self) -> (r: Value) {
        Value::Error(Error { text: self.text.clone() })
    }
}

impl Filler for Value {
    open spec fn value(&self) -> ValueM {
        self@
    }

    fn display(&self) -> (r: String) {
        match self {
            Value::PonString(s) => s.display(),
            Value::Nothing(n) => n.display(),
            Value::Error(e) => e.display(),
        }
    }

    fn bool(&self) -> (r: bool) {
        match self {
            Value::PonString(s) => s.bool(),
            Value::Nothing(n) => n.bool(),
            Value::Error(e) => e.bool(),
        }
    }

    fn to_value(&self) -> (r: Value) {
        match self {
            Value::PonString(s) => s.to_value(),
            Value::Nothing(n) => n.to_value(),
            Value::Error(e) => e.to_value(),
        }
    }
}

impl Value {
    /// A string value holding `content`.
    pub fn string(content: String) -> (r: Value)
        ensures
            r@ == ValueM::Str(content@),
    {
        Value::PonString(PonString { content })
    }

    /// The value that stands for nothing.
    pub fn nothing() -> (r: Value)
        ensures
            r@ == ValueM::Nothing,
    {
        Value::Nothing(Nothing {  })
    }
}

/// An error value with message `content`.
pub fn error(content: String) -> (r: Value)
    ensures
        r@ == ValueM::Error(content@),
{
    Value::Error(Error { text: content })
}

/// The mathematical form of an `Output`.
pub enum OutputM {
    Returned(ValueM),
    Thrown(ValueM),
    LastValue(ValueM),
}

/// How the evaluation of a command or program ended.
#[derive(Debug)]
pub enum Output {
    /// An action returned this value.
    Returned(Value),
    /// This value was thrown; evaluation stopped.
    Thrown(Value),
    /// A program ran to its end; this was its last value.
    LastValue(Value),
}

impl View for Output {
    type V = OutputM;

    open spec fn view(&self) -> OutputM {
        match self {
            Output::Returned(v) => OutputM::Returned(v@),
            Output::Thrown(v) => OutputM::Thrown(v@),
            Output::LastValue(v) => OutputM::LastValue(v@),
        }
    }
}

pub open spec fn returned_prefix() -> Seq<char> {
    seq!['R', 'e', 't', 'u', 'r', 'n', 'e', 'd', ':', ' ']
}

pub open spec fn thrown_prefix() -> Seq<char> {
    seq!['T', 'h', 'r', 'o', 'w', 'n', ':', ' ']
}

pub open spec fn last_value_prefix() -> Seq<char> {
    seq!['L', 'a', 's', 't', 'V', 'a', 'l', 'u', 'e', ':', ' ']
}

/// The text that displays an output: how it ended, then its value.
pub open spec fn output_text(o: OutputM) -> Seq<char> {
    match o {
        OutputM::Returned(v) => returned_prefix() + display_of(v),
        OutputM::Thrown(v) => thrown_prefix() + display_of(v),
        OutputM::LastValue(v) => last_value_prefix() + display_of(v),
    }
}

impl Output {
    /// The text that displays this output.
    pub fn display(&self) -> (r: String)
        ensures
            r@ == output_text(self@),
    {
        proof {
            reveal_strlit("Returned: ");
            reveal_strlit("Thrown: ");
            reveal_strlit("LastValue: ");
        }
        let (mut r, v) = match self {
            Output::Returned(v) => (String::from_str("Returned: "), v),
            Output::Thrown(v) => (String::from_str("Thrown: "), v),
            Output::LastValue(v) => (String::from_str("LastValue: "), v),
        };
        let d = v.display();
        r.append(d.as_str());
        r
    }

    /// The value the output carries.
    pub fn value(&self) -> (r: &Value)
        ensures
            match self@ {
                OutputM::Returned(v) => r@ == v,
                OutputM::Thrown(v) => r@ == v,
                OutputM::LastValue(v) => r@ == v,
            },
    {
        match self {
            Output::Returned(v) => v,
            Output::Thrown(v) => v,
            Output::LastValue(v) => v,
        }
    }
}

} // verus!
