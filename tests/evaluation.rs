use pon::eval::{dispatch_key, execute, invoke_action, MAX_DEPTH};
use pon::interpreter::Interpreter;
use pon::scope::{same_key, Action, Entity, NamePart, Scope};
use pon::syntax::parse;
use pon::value::{error, Filler, Output, Value};

fn run(source: &str) -> (Output, String) {
    let mut interpreter = Interpreter::new();
    let program = parse(source).unwrap();
    interpreter.execute(&program)
}

fn key(words: &[&str]) -> Vec<NamePart> {
    words
        .iter()
        .map(|w| if *w == "{}" { NamePart::Gap } else { NamePart::Word(w.to_string()) })
        .collect()
}

fn thrown_message(o: &Output) -> String {
    match o {
        Output::Thrown(Value::Error(e)) => e.text.clone(),
        other => panic!("expected a thrown error, got {:?}", other),
    }
}

fn stored_string(e: Option<Entity>) -> String {
    match e {
        Some(Entity::Filler(Value::PonString(s))) => s.content,
        other => panic!("expected a stored string, got {:?}", other),
    }
}

#[test]
fn print_hi_returns_nothing_and_writes_hi() {
    let mut scope = pon::interpreter::builtins();
    let mut written = String::new();
    let args = vec![Value::string("hi".to_string())];
    let action = invoke_action(&mut scope, &mut written, Action::Print, args, MAX_DEPTH);
    assert!(matches!(action, Output::Returned(Value::Nothing(_))));
    assert_eq!(written, "hi\n");
    let (o, out) = run("print {hi}");
    assert!(matches!(o, Output::LastValue(Value::Nothing(_))));
    assert_eq!(out, "hi\n");
}

#[test]
fn name_then_lookup_gives_stored_value() {
    let mut interpreter = Interpreter::new();
    let program = parse("name {5} as {x}\nx").unwrap();
    let (o, out) = interpreter.execute(&program);
    match o {
        Output::LastValue(Value::PonString(s)) => assert_eq!(s.content, "5"),
        other => panic!("expected the last value 5, got {:?}", other),
    }
    assert_eq!(out, "");
    assert_eq!(stored_string(interpreter.scope.find(&key(&["x"]))), "5");
}

#[test]
fn undefined_name_is_thrown() {
    let (o, out) = run("undefined thing");
    assert_eq!(thrown_message(&o), "name not found: undefined thing");
    assert_eq!(out, "");
}

#[test]
fn not_found_message_shows_gaps() {
    let (o, _) = run("show {a} now");
    assert_eq!(thrown_message(&o), "name not found: show {} now");
}

#[test]
fn if_with_true_condition_runs_branch() {
    let mut scope = pon::interpreter::builtins();
    let mut written = String::new();
    let args = vec![Value::string("5".to_string()), Value::string("print {yes}".to_string())];
    let action = invoke_action(&mut scope, &mut written, Action::If, args, MAX_DEPTH);
    assert!(matches!(action, Output::Returned(Value::Nothing(_))));
    assert_eq!(written, "yes\n");
    let (o, out) = run("if {5}, then {print {yes}}");
    assert!(matches!(o, Output::LastValue(Value::Nothing(_))));
    assert_eq!(out, "yes\n");
}

#[test]
fn if_with_false_condition_skips_branch() {
    let (o, out) = run("if {}, then {print {yes}}");
    assert!(matches!(o, Output::LastValue(Value::Nothing(_))));
    assert_eq!(out, "");
    let (o2, out2) = run("if (), then {print {yes}}");
    assert!(matches!(o2, Output::LastValue(Value::Nothing(_))));
    assert_eq!(out2, "");
}

#[test]
fn if_branch_that_throws_propagates() {
    let (o, out) = run("if {1}, then {print {a}; missing}; print {after}");
    assert_eq!(thrown_message(&o), "name not found: missing");
    assert_eq!(out, "a\n");
}

#[test]
fn if_branch_must_be_a_string() {
    let (o, _) = run("if {1}, then ()");
    assert_eq!(thrown_message(&o), "the branch is not a string");
}

#[test]
fn if_branch_must_parse() {
    let (o, _) = run("if {1}, then {)}");
    assert_eq!(thrown_message(&o), "couldn't parse the branch as a program");
}

#[test]
fn if_branch_bindings_are_discarded() {
    let (o, _) = run("if {1}, then {name {v} as {inner}}\ninner");
    assert_eq!(thrown_message(&o), "name not found: inner");
}

#[test]
fn name_must_be_a_string() {
    let (o, _) = run("name {5} as ()");
    assert_eq!(thrown_message(&o), "the name is not a string");
}

#[test]
fn name_must_be_words_of_one_command() {
    let (o, _) = run("name {5} as {a {b}}");
    assert_eq!(thrown_message(&o), "bad name");
    let (o2, _) = run("name {5} as {a; b}");
    assert_eq!(thrown_message(&o2), "bad name");
    let (o3, _) = run("name {5} as {a)}");
    assert_eq!(thrown_message(&o3), "bad name");
}

#[test]
fn multi_word_names_are_keys() {
    let (o, out) = run("name {hello there} as {my greeting}\nprint (my greeting)");
    assert!(matches!(o, Output::LastValue(Value::Nothing(_))));
    assert_eq!(out, "hello there\n");
}

#[test]
fn filler_value_becomes_an_argument() {
    let (_, out) = run("name {5} as {x}\nprint (x)");
    assert_eq!(out, "5\n");
}

#[test]
fn filler_bindings_stay_in_the_filler() {
    let (o, out) = run("print (name {1} as {y})\ny");
    assert_eq!(out, "nothing\n");
    assert_eq!(thrown_message(&o), "name not found: y");
}

#[test]
fn print_hello_and_world_share_a_key() {
    let hello = parse("print {hello}").unwrap();
    let world = parse("print {world}").unwrap();
    let k1 = dispatch_key(&hello.commands[0].parts);
    let k2 = dispatch_key(&world.commands[0].parts);
    assert!(same_key(&k1, &k2));
    assert!(same_key(&k1, &key(&["print", "{}"])));
    let mut interpreter = Interpreter::new();
    let (_, out1) = interpreter.execute(&hello);
    let (_, out2) = interpreter.execute(&world);
    assert_eq!(out1, "hello\n");
    assert_eq!(out2, "world\n");
}

#[test]
fn different_words_make_different_keys() {
    let a = parse("print {x}").unwrap();
    let b = parse("show {x}").unwrap();
    let c = parse("print x").unwrap();
    let ka = dispatch_key(&a.commands[0].parts);
    assert!(!same_key(&ka, &dispatch_key(&b.commands[0].parts)));
    assert!(!same_key(&ka, &dispatch_key(&c.commands[0].parts)));
}

#[test]
fn child_binding_shadows_ancestor() {
    let mut scope = Scope::new();
    scope.register_filler(key(&["x"]), Value::string("outer".to_string()));
    scope.enter();
    scope.register_filler(key(&["x"]), Value::string("inner".to_string()));
    scope.register_filler(key(&["y"]), Value::string("child only".to_string()));
    assert_eq!(stored_string(scope.find(&key(&["x"]))), "inner");
    scope.leave();
    assert_eq!(stored_string(scope.find(&key(&["x"]))), "outer");
    assert!(scope.find(&key(&["y"])).is_none());
}

#[test]
fn later_binding_overwrites_earlier() {
    let mut scope = Scope::new();
    scope.register_filler(key(&["x"]), Value::string("one".to_string()));
    scope.register_filler(key(&["x"]), Value::string("two".to_string()));
    assert_eq!(stored_string(scope.find(&key(&["x"]))), "two");
    assert_eq!(scope.depth(), 1);
}

#[test]
fn words_compare_case_sensitively() {
    let (o, _) = run("PRINT {x}");
    assert_eq!(thrown_message(&o), "name not found: PRINT {}");
}

#[test]
fn throw_stops_later_commands() {
    let (o, out) = run("print {a}; undefined; print {b}");
    assert_eq!(thrown_message(&o), "name not found: undefined");
    assert_eq!(out, "a\n");
}

#[test]
fn throw_in_filler_stops_the_command() {
    let (o, out) = run("print (undefined); print {b}");
    assert_eq!(thrown_message(&o), "name not found: undefined");
    assert_eq!(out, "");
}

#[test]
fn empty_program_has_nothing_as_last_value() {
    let (o, out) = run("");
    assert!(matches!(o, Output::LastValue(Value::Nothing(_))));
    assert_eq!(out, "");
}

#[test]
fn last_value_is_the_last_command_result() {
    let (o, out) = run("name {a} as {x}; name {b} as {y}; x; y");
    match o {
        Output::LastValue(Value::PonString(s)) => assert_eq!(s.content, "b"),
        other => panic!("expected the last value b, got {:?}", other),
    }
    assert_eq!(out, "");
}

#[test]
fn nesting_deeper_than_the_budget_throws() {
    let deep = format!("{}{}", "(".repeat(201), ")".repeat(201));
    let (o, _) = run(&deep);
    assert_eq!(thrown_message(&o), "nesting too deep");
    let within = format!("{}{}", "(".repeat(200), ")".repeat(200));
    let (o2, _) = run(&within);
    assert_eq!(thrown_message(&o2), "name not found: {}");
}

#[test]
fn action_with_wrong_arity_throws() {
    let mut scope = Scope::new();
    scope.register(key(&["show"]), Entity::Action(Action::Print));
    let program = parse("show").unwrap();
    let mut out = String::new();
    let o = execute(&mut scope, &program, &mut out);
    assert_eq!(thrown_message(&o), "wrong number of arguments");
    assert_eq!(out, "");
}

#[test]
fn interpreter_set_binds_a_user_value() {
    let mut interpreter = Interpreter::new();
    interpreter.set(key(&["greeting"]), Value::string("hi".to_string()));
    let program = parse("print (greeting)").unwrap();
    let (o, out) = interpreter.execute(&program);
    assert!(matches!(o, Output::LastValue(Value::Nothing(_))));
    assert_eq!(out, "hi\n");
}

#[test]
fn bare_word_key_differs_from_builtin_key() {
    let (o, out) = run("name {mine} as {print}\nprint");
    match o {
        Output::LastValue(Value::PonString(s)) => assert_eq!(s.content, "mine"),
        other => panic!("expected the stored value, got {:?}", other),
    }
    assert_eq!(out, "");
}

#[test]
fn printing_an_error_value_uses_its_display() {
    let mut interpreter = Interpreter::new();
    interpreter.set(key(&["oops"]), error("bad".to_string()));
    let program = parse("print (oops)").unwrap();
    let (_, out) = interpreter.execute(&program);
    assert_eq!(out, "Error { bad }\n");
}

#[test]
fn error_value_is_false() {
    assert!(!error("x".to_string()).bool());
}

#[test]
fn executor_budget_limits_nesting() {
    let shallow = pon::eval::Executor { depth: 1 };
    let mut scope = pon::interpreter::builtins();
    let mut out = String::new();
    let one = parse("print (name {1} as {z})").unwrap();
    let o = shallow.execute(&mut scope, &one, &mut out);
    assert!(matches!(o, Output::LastValue(Value::Nothing(_))));
    assert_eq!(out, "nothing\n");
    let two = parse("print ((x))").unwrap();
    let o2 = shallow.execute(&mut scope, &two, &mut out);
    assert_eq!(thrown_message(&o2), "nesting too deep");
}

#[test]
fn name_action_binds_in_the_callers_frame() {
    let mut scope = pon::interpreter::builtins();
    scope.enter();
    let mut written = String::new();
    let args = vec![Value::string("7".to_string()), Value::string("seven".to_string())];
    let o = invoke_action(&mut scope, &mut written, Action::Name, args, MAX_DEPTH);
    assert!(matches!(o, Output::Returned(Value::Nothing(_))));
    assert_eq!(stored_string(scope.find(&key(&["seven"]))), "7");
    scope.leave();
    assert!(scope.find(&key(&["seven"])).is_none());
}
