use pon::value::{error, Error, Filler, Nothing, Output, PonString, Value};

#[test]
fn string_displays_its_content() {
    let s = PonString { content: "abc".to_string() };
    assert_eq!(s.display(), "abc");
    assert_eq!(Value::string("abc".to_string()).display(), "abc");
}

#[test]
fn nothing_displays_as_nothing() {
    assert_eq!(Nothing {}.display(), "nothing");
    assert_eq!(Value::nothing().display(), "nothing");
}

#[test]
fn error_displays_with_its_message() {
    let e = Error { text: "boom".to_string() };
    assert_eq!(e.display(), "Error { boom }");
}

#[test]
fn truthiness_of_values() {
    assert!(Value::string("x".to_string()).bool());
    assert!(!Value::string(String::new()).bool());
    assert!(!Value::nothing().bool());
    assert!(!error("x".to_string()).bool());
}

#[test]
fn to_value_copies() {
    let v = Value::string("copy".to_string());
    match v.to_value() {
        Value::PonString(s) => assert_eq!(s.content, "copy"),
        other => panic!("expected a string, got {:?}", other),
    }
}

#[test]
fn output_display_names_its_kind() {
    assert_eq!(Output::Returned(Value::nothing()).display(), "Returned: nothing");
    assert_eq!(Output::Thrown(error("x".to_string())).display(), "Thrown: Error { x }");
    assert_eq!(
        Output::LastValue(Value::string("5".to_string())).display(),
        "LastValue: 5"
    );
}

#[test]
fn output_value_gives_the_carried_value() {
    let o = Output::Thrown(error("why".to_string()));
    assert_eq!(o.value().display(), "Error { why }");
}
