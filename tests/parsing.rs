use pon::position::{line_text, TrackedString};
use pon::syntax::{kind, parse, parse_repl, After, Command, Kind, NamePart, Program, SyntaxError};

fn only_command(p: &Program) -> &Command {
    assert_eq!(p.commands.len(), 1);
    &p.commands[0]
}

fn word_of(part: &NamePart) -> &str {
    match part {
        NamePart::Word(w) => w.as_str(),
        other => panic!("expected a word, got {:?}", other),
    }
}

fn string_of(part: &NamePart) -> &str {
    match part {
        NamePart::String(s) => s.as_str(),
        other => panic!("expected a string, got {:?}", other),
    }
}

fn error_of(text: &str) -> (SyntaxError, usize) {
    match parse(text) {
        Err(e) => (e.entity, e.position),
        Ok(p) => panic!("expected an error, got {:?}", p),
    }
}

#[test]
fn word_alone_is_one_word() {
    let p = parse("hello").unwrap();
    let c = only_command(&p);
    assert_eq!(c.position, 0);
    assert_eq!(c.parts.len(), 1);
    assert_eq!(word_of(&c.parts[0]), "hello");
}

#[test]
fn word_with_punctuation_is_one_word() {
    let p = parse("a,b.c-d").unwrap();
    let c = only_command(&p);
    assert_eq!(c.parts.len(), 1);
    assert_eq!(word_of(&c.parts[0]), "a,b.c-d");
}

#[test]
fn string_keeps_nested_braces() {
    let p = parse("{a {b} c}").unwrap();
    let c = only_command(&p);
    assert_eq!(c.parts.len(), 1);
    assert_eq!(string_of(&c.parts[0]), "a {b} c");
}

#[test]
fn empty_string_is_a_part() {
    let p = parse("{}").unwrap();
    let c = only_command(&p);
    assert_eq!(string_of(&c.parts[0]), "");
}

#[test]
fn string_keeps_newlines() {
    let p = parse("{line one\nline two}").unwrap();
    let c = only_command(&p);
    assert_eq!(string_of(&c.parts[0]), "line one\nline two");
}

#[test]
fn string_keeps_escapes_verbatim() {
    let p = parse("{a\\}b}").unwrap();
    let c = only_command(&p);
    assert_eq!(string_of(&c.parts[0]), "a\\}b");
}

#[test]
fn filler_wraps_the_inner_program() {
    let p = parse("(print {x})").unwrap();
    let c = only_command(&p);
    assert_eq!(c.parts.len(), 1);
    match &c.parts[0] {
        NamePart::Filler(inner) => {
            let ic = only_command(inner);
            assert_eq!(ic.position, 1);
            assert_eq!(ic.parts.len(), 2);
            assert_eq!(word_of(&ic.parts[0]), "print");
            assert_eq!(string_of(&ic.parts[1]), "x");
        }
        other => panic!("expected a filler, got {:?}", other),
    }
    let alone = parse("print {x}").unwrap();
    let ac = only_command(&alone);
    assert_eq!(ac.parts.len(), 2);
    assert_eq!(word_of(&ac.parts[0]), "print");
    assert_eq!(string_of(&ac.parts[1]), "x");
}

#[test]
fn if_command_has_five_parts() {
    let p = parse("if {5}, then {print {yes}}").unwrap();
    let c = only_command(&p);
    assert_eq!(c.parts.len(), 5);
    assert_eq!(word_of(&c.parts[0]), "if");
    assert_eq!(string_of(&c.parts[1]), "5");
    assert_eq!(word_of(&c.parts[2]), ",");
    assert_eq!(word_of(&c.parts[3]), "then");
    assert_eq!(string_of(&c.parts[4]), "print {yes}");
}

#[test]
fn separators_split_commands() {
    let p = parse("a; b\nc").unwrap();
    assert_eq!(p.commands.len(), 3);
    assert_eq!(p.commands[0].position, 0);
    assert_eq!(p.commands[1].position, 3);
    assert_eq!(p.commands[2].position, 5);
    assert_eq!(word_of(&p.commands[2].parts[0]), "c");
}

#[test]
fn blanks_make_no_commands() {
    let p = parse("\n\n;;  \t\n").unwrap();
    assert_eq!(p.commands.len(), 0);
    let empty = parse("").unwrap();
    assert_eq!(empty.commands.len(), 0);
}

#[test]
fn comments_are_dropped() {
    let p = parse("print {x} | a note\nfoo").unwrap();
    assert_eq!(p.commands.len(), 2);
    assert_eq!(p.commands[0].parts.len(), 2);
    assert_eq!(p.commands[1].position, 19);
    assert_eq!(word_of(&p.commands[1].parts[0]), "foo");
    let only_comment = parse("| nothing here").unwrap();
    assert_eq!(only_comment.commands.len(), 0);
}

#[test]
fn escape_makes_a_special_character_literal() {
    let p = parse("a\\(b\\ c").unwrap();
    let c = only_command(&p);
    assert_eq!(c.parts.len(), 1);
    assert_eq!(word_of(&c.parts[0]), "a(b c");
}

#[test]
fn escape_at_end_of_input_is_fatal() {
    assert_eq!(error_of("ab\\"), (SyntaxError::EscapeAtEndOfInput, 2));
}

#[test]
fn unclosed_string_points_at_its_opening() {
    assert_eq!(error_of("x {abc"), (SyntaxError::UnclosedString, 2));
    assert_eq!(error_of("{a {b}"), (SyntaxError::UnclosedString, 0));
}

#[test]
fn unclosed_filler_points_at_its_opening() {
    assert_eq!(error_of("x (abc"), (SyntaxError::UnclosedFiller, 2));
}

#[test]
fn stray_paren_is_unexpected_filler_closure() {
    assert_eq!(error_of("abc)"), (SyntaxError::UnexpectedFillerClosure, 3));
}

#[test]
fn stray_brace_is_unexpected_string_closure() {
    assert_eq!(error_of("abc}"), (SyntaxError::UnexpectedStringClosure, 3));
}

#[test]
fn stray_brace_inside_filler() {
    assert_eq!(error_of("(a})"), (SyntaxError::UnexpectedStringClosure, 2));
}

#[test]
fn repl_open_paren_needs_more_input() {
    match parse_repl("(") {
        After::NeedMoreInput(at) => assert_eq!(at, 0),
        other => panic!("expected more input to be needed, got {:?}", other),
    }
    match parse_repl("(\n)") {
        After::CleanEnd(p) => {
            let c = only_command(&p);
            match &c.parts[0] {
                NamePart::Filler(inner) => assert_eq!(inner.commands.len(), 0),
                other => panic!("expected a filler, got {:?}", other),
            }
        }
        other => panic!("expected a clean end, got {:?}", other),
    }
}

#[test]
fn repl_unclosed_string_needs_more_input() {
    match parse_repl("print {abc") {
        After::NeedMoreInput(at) => assert_eq!(at, 6),
        other => panic!("expected more input to be needed, got {:?}", other),
    }
}

#[test]
fn repl_stray_brace_is_fatal() {
    match parse_repl("abc}") {
        After::FatalError(e) => {
            assert_eq!(e.entity, SyntaxError::UnexpectedStringClosure);
            assert_eq!(e.position, 3);
        }
        other => panic!("expected a fatal error, got {:?}", other),
    }
}

#[test]
fn characters_are_classified() {
    assert_eq!(kind(' '), Kind::WordSeparator);
    assert_eq!(kind('\t'), Kind::WordSeparator);
    assert_eq!(kind(';'), Kind::CommandSeparator);
    assert_eq!(kind('\n'), Kind::CommandSeparator);
    assert_eq!(kind('('), Kind::FillerOpener);
    assert_eq!(kind(')'), Kind::FillerCloser);
    assert_eq!(kind('{'), Kind::StringOpener);
    assert_eq!(kind('}'), Kind::StringCloser);
    assert_eq!(kind('|'), Kind::CommentOpener);
    assert_eq!(kind('\\'), Kind::Escape);
    assert_eq!(kind('x'), Kind::Literal);
}

#[test]
fn locate_gives_row_and_column() {
    let t = TrackedString::locate("ab\ncd", 4);
    assert_eq!(t.row(), 2);
    assert_eq!(t.column(), 1);
    assert_eq!(t.line_start(), 3);
    let first = TrackedString::locate("ab\ncd", 0);
    assert_eq!(first.row(), 1);
    assert_eq!(first.column(), 0);
}

#[test]
fn line_text_stops_at_newline() {
    assert_eq!(line_text("ab\ncd\nef", 3), "cd");
    assert_eq!(line_text("ab\ncd\nef", 6), "ef");
    assert_eq!(line_text("ab", 5), "");
}
