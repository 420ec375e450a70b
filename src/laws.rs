//! Properties of the grammar and of evaluation, proved over their
//! specifications.
use vstd::prelude::*;
use crate::eval::{eval_program, key_of, run_commands, run_parts, State};
use crate::scope::{scope_enter, scope_find, scope_register, EntityM, FrameM, KeyM};
use crate::syntax::{
    kind_of, lemma_skip_blank_bounds, lemma_skip_blank_stops, parse_items, parse_parts, parse_text, scan_string, scan_word,
    skip_blank, CommandM,
    Kind, PartM, SyntaxError,
};
use crate::value::ValueM;

verus! {

proof fn lemma_literal_run(s: Seq<char>, i: int)
    requires
        0 <= i <= s.len(),
        forall|k: int| i <= k < s.len() ==> kind_of(#[trigger] s[k]) == Kind::Literal,
    ensures
        scan_word(s, i, s.take(i)) == Ok::<(Seq<char>, int), (SyntaxError, int)>((s, s.len() as int)),
    decreases s.len() - i,
{
    if i < s.len() {
        lemma_literal_run(s, i + 1);
        assert(s.take(i).push(s[i]) =~= s.take(i + 1));
    } else {
        assert(s.take(i) =~= s);
    }
}

/// A text made of literal characters alone (no whitespace, no `;`, no
/// parenthesis, brace, `|` or `\`) parses to one command holding one word,
/// that text.
pub proof fn word_alone_parses_to_word(w: Seq<char>)
    requires
        w.len() > 0,
        forall|k: int| 0 <= k < w.len() ==> kind_of(#[trigger] w[k]) == Kind::Literal,
    ensures
        parse_text(w) == Ok::<Seq<CommandM>, (SyntaxError, int)>(
            seq![CommandM { position: 0, parts: seq![PartM::Word(w)] }],
        ),
{
    let n = w.len() as int;
    lemma_literal_run(w, 0);
    assert(w.take(0) =~= Seq::<char>::empty());
    assert(kind_of(w[0]) == Kind::Literal);
    assert(skip_blank(w, 0, true, false) == 0);
    assert(skip_blank(w, 0, false, false) == 0);
    assert(skip_blank(w, n, false, false) == n);
    assert(skip_blank(w, n, true, false) == n);
    let parts = seq![PartM::Word(w)];
    assert(Seq::<PartM>::empty().push(PartM::Word(w)) =~= parts);
    assert(parse_parts(w, n, parts) == Ok::<(Seq<PartM>, int), (SyntaxError, int)>((parts, n)));
    assert(parse_parts(w, 0, Seq::empty()) == Ok::<(Seq<PartM>, int), (SyntaxError, int)>((parts, n)));
    let cmd = CommandM { position: 0, parts };
    assert(Seq::<CommandM>::empty().push(cmd) =~= seq![cmd]);
    assert(parse_items(w, n, seq![cmd]) == Ok::<(Seq<CommandM>, int), (SyntaxError, int)>((seq![cmd], n)));
    assert(parse_items(w, 0, Seq::empty()) == Ok::<(Seq<CommandM>, int), (SyntaxError, int)>((seq![cmd], n)));
}

/// The number of `{` less the number of `}` among the first `k` characters.
pub open spec fn brace_depth(s: Seq<char>, k: int) -> int
    decreases k,
{
    if k <= 0 {
        0
    } else {
        brace_depth(s, k - 1) + if s[k - 1] == '{' {
            1int
        } else if s[k - 1] == '}' {
            -1int
        } else {
            0int
        }
    }
}

/// Whether every `}` of `s` closes an earlier `{` of `s`, and every `{` is
/// closed.
pub open spec fn balanced(s: Seq<char>) -> bool {
    &&& forall|k: int| 0 <= k <= s.len() ==> brace_depth(s, k) >= 0
    &&& brace_depth(s, s.len() as int) == 0
}

proof fn lemma_balanced_run(s: Seq<char>, t: Seq<char>, k: int)
    requires
        balanced(s),
        forall|m: int| 0 <= m < s.len() ==> #[trigger] s[m] != '\\',
        t == seq!['{'] + s + seq!['}'],
        0 <= k <= s.len(),
    ensures
        scan_string(t, 1 + k, brace_depth(s, k) as nat, s.take(k)) == Some((s, s.len() + 2int)),
    decreases s.len() - k,
{
    assert(t[1 + k] == if k < s.len() {
        s[k]
    } else {
        '}'
    });
    assert(brace_depth(s, k) >= 0);
    if k < s.len() {
        lemma_balanced_run(s, t, k + 1);
        assert(s.take(k).push(s[k]) =~= s.take(k + 1));
        assert(brace_depth(s, k + 1) >= 0);
    } else {
        assert(s.take(k) =~= s);
    }
}

/// A brace-delimited text whose content is balanced and holds no `\` parses
/// to one command holding one string part, that content.
pub proof fn string_alone_parses_to_string(s: Seq<char>)
    requires
        balanced(s),
        forall|m: int| 0 <= m < s.len() ==> #[trigger] s[m] != '\\',
    ensures
        parse_text(seq!['{'] + s + seq!['}']) == Ok::<Seq<CommandM>, (SyntaxError, int)>(
            seq![CommandM { position: 0, parts: seq![PartM::Str(s)] }],
        ),
{
    let t = seq!['{'] + s + seq!['}'];
    let n = t.len() as int;
    lemma_balanced_run(s, t, 0);
    assert(s.take(0) =~= Seq::<char>::empty());
    assert(t[0] == '{');
    assert(skip_blank(t, 0, true, false) == 0);
    assert(skip_blank(t, 0, false, false) == 0);
    assert(skip_blank(t, n, false, false) == n);
    assert(skip_blank(t, n, true, false) == n);
    let parts = seq![PartM::Str(s)];
    assert(Seq::<PartM>::empty().push(PartM::Str(s)) =~= parts);
    assert(parse_parts(t, n, parts) == Ok::<(Seq<PartM>, int), (SyntaxError, int)>((parts, n)));
    assert(parse_parts(t, 0, Seq::empty()) == Ok::<(Seq<PartM>, int), (SyntaxError, int)>((parts, n)));
    let cmd = CommandM { position: 0, parts };
    assert(Seq::<CommandM>::empty().push(cmd) =~= seq![cmd]);
    assert(parse_items(t, n, seq![cmd]) == Ok::<(Seq<CommandM>, int), (SyntaxError, int)>((seq![cmd], n)));
    assert(parse_items(t, 0, Seq::empty()) == Ok::<(Seq<CommandM>, int), (SyntaxError, int)>((seq![cmd], n)));
}

/// A binding made in a child frame is what a lookup from the child finds,
/// whatever the ancestors bind; once the child frame is dropped, lookups see
/// the ancestors' bindings alone.
pub proof fn child_binding_shadows(sc: Seq<FrameM>, k: Seq<KeyM>, e: EntityM)
    ensures
        scope_find(scope_register(scope_enter(sc), k, e), k) == Some(e),
        scope_register(scope_enter(sc), k, e).drop_last() == sc,
        scope_find(scope_register(scope_enter(sc), k, e).drop_last(), k) == scope_find(sc, k),
{
    let child = scope_register(scope_enter(sc), k, e);
    assert(child.last() == Seq::<(Seq<KeyM>, EntityM)>::empty().push((k, e)));
    assert(child.drop_last() =~= sc);
}

proof fn lemma_unwind_from(fuel: nat, st: State, p: Seq<CommandM>, rest: Seq<CommandM>, i: int, last: ValueM)
    requires
        0 <= i <= p.len(),
        run_commands(fuel, st, p, i, last).0 is Thrown,
    ensures
        run_commands(fuel, st, p + rest, i, last) == run_commands(fuel, st, p, i, last),
    decreases p.len() - i,
{
    if i < p.len() {
        assert((p + rest)[i] == p[i]);
        let (args, st1) = run_parts(fuel, st, p[i].parts, 0, Seq::empty());
        match args {
            Err(_) => {},
            Ok(args) => {
                match scope_find(st1.scope, key_of(p[i].parts)) {
                    None => {},
                    Some(EntityM::Filler(v)) => {
                        lemma_unwind_from(fuel, st1, p, rest, i + 1, v);
                    },
                    Some(EntityM::Action(a)) => {
                        let (o, st2) = crate::eval::invoke(fuel, a, st1, args);
                        match o {
                            crate::value::OutputM::Thrown(_) => {},
                            crate::value::OutputM::Returned(v) => {
                                lemma_unwind_from(fuel, st2, p, rest, i + 1, v);
                            },
                            crate::value::OutputM::LastValue(v) => {
                                lemma_unwind_from(fuel, st2, p, rest, i + 1, v);
                            },
                        }
                    },
                }
            },
        }
    }
}

/// Once a command of a program throws, nothing after it runs: appending
/// commands to a program that throws changes neither what it throws nor the
/// state it leaves.
pub proof fn throw_stops_the_program(fuel: nat, st: State, p: Seq<CommandM>, rest: Seq<CommandM>)
    requires
        eval_program(fuel, st, p).0 is Thrown,
    ensures
        eval_program(fuel, st, p + rest) == eval_program(fuel, st, p),
{
    lemma_unwind_from(fuel, st, p, rest, 0, ValueM::Nothing);
}

proof fn lemma_word_then_string(fuel: nat, st: State, w: Seq<char>, a: Seq<char>)
    ensures
        run_parts(fuel, st, seq![PartM::Word(w), PartM::Str(a)], 0, Seq::empty()) == (
            Ok::<Seq<ValueM>, ValueM>(seq![ValueM::Str(a)]),
            st,
        ),
{
    let parts = seq![PartM::Word(w), PartM::Str(a)];
    let args = seq![ValueM::Str(a)];
    assert(parts[0] == PartM::Word(w));
    assert(parts[1] == PartM::Str(a));
    assert(Seq::<ValueM>::empty().push(ValueM::Str(a)) =~= args);
    assert(run_parts(fuel, st, parts, 2, args) == (Ok::<Seq<ValueM>, ValueM>(args), st));
    assert(run_parts(fuel, st, parts, 1, Seq::empty()) == (Ok::<Seq<ValueM>, ValueM>(args), st));
}

/// Two commands with the same words in the same places and arguments in the
/// other places have the same dispatch key, so they resolve to the same
/// binding; commands of one word and one string get that string as their one
/// argument.
pub proof fn dispatch_by_shape(fuel: nat, st: State, w: Seq<char>, a: Seq<char>, b: Seq<char>)
    ensures
        key_of(seq![PartM::Word(w), PartM::Str(a)]) == key_of(seq![PartM::Word(w), PartM::Str(b)]),
        scope_find(st.scope, key_of(seq![PartM::Word(w), PartM::Str(a)])) == scope_find(
            st.scope,
            key_of(seq![PartM::Word(w), PartM::Str(b)]),
        ),
        run_parts(fuel, st, seq![PartM::Word(w), PartM::Str(a)], 0, Seq::empty()) == (
            Ok::<Seq<ValueM>, ValueM>(seq![ValueM::Str(a)]),
            st,
        ),
        run_parts(fuel, st, seq![PartM::Word(w), PartM::Str(b)], 0, Seq::empty()) == (
            Ok::<Seq<ValueM>, ValueM>(seq![ValueM::Str(b)]),
            st,
        ),
{
    assert(key_of(seq![PartM::Word(w), PartM::Str(a)]) =~= key_of(
        seq![PartM::Word(w), PartM::Str(b)],
    ));
    lemma_word_then_string(fuel, st, w, a);
    lemma_word_then_string(fuel, st, w, b);
}

/// A part with every position moved by `d`.
pub open spec fn shift_part(p: PartM, d: int) -> PartM
    decreases p,
{
    match p {
        PartM::Filler(c) => PartM::Filler(shift_commands(c, d)),
        PartM::Word(w) => PartM::Word(w),
        PartM::Str(s) => PartM::Str(s),
    }
}

/// Parts with every position moved by `d`.
pub open spec fn shift_parts(ps: Seq<PartM>, d: int) -> Seq<PartM>
    decreases ps,
{
    Seq::new(
        ps.len(),
        |i: int|
            if 0 <= i < ps.len() {
                shift_part(ps[i], d)
            } else {
                PartM::Word(Seq::empty())
            },
    )
}

/// Commands with every position moved by `d`.
pub open spec fn shift_commands(c: Seq<CommandM>, d: int) -> Seq<CommandM>
    decreases c,
{
    Seq::new(
        c.len(),
        |i: int|
            if 0 <= i < c.len() {
                CommandM { position: (c[i].position + d) as nat, parts: shift_parts(c[i].parts, d) }
            } else {
                CommandM { position: 0, parts: Seq::empty() }
            },
    )
}

/// Whether every `|` of `s` is followed, later in `s`, by a newline: no
/// comment runs to the end of the text.
pub open spec fn comments_closed(s: Seq<char>) -> bool {
    forall|i: int|
        0 <= i < s.len() && #[trigger] s[i] == '|' ==> exists|m: int| i < m < s.len() && s[m] == '\n'
}

pub open spec fn wrapped(p: Seq<char>) -> Seq<char> {
    seq!['('] + p + seq![')']
}

proof fn lemma_wrapped_index(p: Seq<char>, i: int)
    ensures
        0 <= i < p.len() ==> wrapped(p)[i + 1] == p[i],
        wrapped(p)[0] == '(',
        wrapped(p)[p.len() + 1int] == ')',
        wrapped(p).len() == p.len() + 2,
{
}

proof fn lemma_skip_inside(p: Seq<char>, i: int, seps: bool, comment: bool)
    requires
        0 <= i <= p.len(),
        comments_closed(p),
        comment ==> exists|m: int| i <= m < p.len() && p[m] == '\n',
    ensures
        skip_blank(wrapped(p), i + 1, seps, comment) == skip_blank(p, i, seps, comment) + 1,
    decreases p.len() - i,
{
    let t = wrapped(p);
    lemma_wrapped_index(p, i);
    if i < p.len() {
        if comment {
            if p[i] == '\n' {
                lemma_skip_inside(p, i + 1, seps, false);
            } else {
                let m = choose|m: int| i <= m < p.len() && p[m] == '\n';
                assert(i + 1 <= m);
                lemma_skip_inside(p, i + 1, seps, true);
            }
        } else {
            if kind_of(p[i]) == Kind::CommentOpener {
                assert(p[i] == '|');
                let m = choose|m: int| i < m < p.len() && p[m] == '\n';
                lemma_skip_inside(p, i + 1, seps, true);
            } else {
                lemma_skip_inside(p, i + 1, seps, false);
            }
        }
    }
}

proof fn lemma_word_inside(p: Seq<char>, i: int, acc: Seq<char>)
    requires
        0 <= i <= p.len(),
        scan_word(p, i, acc) is Ok,
    ensures
        scan_word(p, i, acc) matches Ok((w, k)) ==> i <= k <= p.len() && scan_word(
            wrapped(p),
            i + 1,
            acc,
        ) == Ok::<(Seq<char>, int), (SyntaxError, int)>((w, k + 1)),
    decreases p.len() - i,
{
    lemma_wrapped_index(p, i);
    lemma_wrapped_index(p, i + 1);
    if i < p.len() {
        if kind_of(p[i]) == Kind::Escape {
            if i + 1 < p.len() {
                lemma_word_inside(p, i + 2, acc.push(p[i + 1]));
            }
        } else if kind_of(p[i]) == Kind::Literal {
            lemma_word_inside(p, i + 1, acc.push(p[i]));
        }
    }
}

proof fn lemma_string_inside(p: Seq<char>, i: int, depth: nat, acc: Seq<char>)
    requires
        0 <= i <= p.len(),
        scan_string(p, i, depth, acc) is Some,
    ensures
        scan_string(p, i, depth, acc) matches Some((s, k)) ==> i < k <= p.len() && scan_string(
            wrapped(p),
            i + 1,
            depth,
            acc,
        ) == Some((s, k + 1)),
    decreases p.len() - i,
{
    lemma_wrapped_index(p, i);
    lemma_wrapped_index(p, i + 1);
    if i < p.len() {
        match kind_of(p[i]) {
            Kind::Escape => if i + 1 < p.len() {
                lemma_string_inside(p, i + 2, depth, acc.push(p[i]).push(p[i + 1]));
            },
            Kind::StringOpener => lemma_string_inside(p, i + 1, depth + 1, acc.push(p[i])),
            Kind::StringCloser => if depth > 0 {
                lemma_string_inside(p, i + 1, (depth - 1) as nat, acc.push(p[i]));
            },
            _ => lemma_string_inside(p, i + 1, depth, acc.push(p[i])),
        }
    }
}

proof fn lemma_items_inside(p: Seq<char>, i: int, acc: Seq<CommandM>)
    requires
        0 <= i <= p.len(),
        comments_closed(p),
        parse_items(p, i, acc) is Ok,
    ensures
        parse_items(p, i, acc) matches Ok((c, k)) ==> {
            &&& i <= k <= p.len()
            &&& parse_items(wrapped(p), i + 1, shift_commands(acc, 1)) == Ok::<
                (Seq<CommandM>, int),
                (SyntaxError, int),
            >((shift_commands(c, 1), k + 1))
        },
    decreases p.len() - i, 2int,
{
    let t = wrapped(p);
    lemma_skip_blank_bounds(p, i, true, false);
    lemma_skip_inside(p, i, true, false);
    let j = skip_blank(p, i, true, false);
    lemma_wrapped_index(p, j);
    if j >= p.len() || crate::syntax::ends_program(p[j]) {
    } else {
        lemma_parts_inside(p, j, Seq::empty());
        assert(shift_parts(Seq::empty(), 1) =~= Seq::<PartM>::empty());
        let (parts, k) = parse_parts(p, j, Seq::empty())->Ok_0;
        if k <= i || k > p.len() {
        } else {
            let cmd = CommandM { position: j as nat, parts };
            lemma_items_inside(p, k, acc.push(cmd));
            assert(shift_commands(acc.push(cmd), 1) =~= shift_commands(acc, 1).push(
                CommandM { position: (j + 1) as nat, parts: shift_parts(parts, 1) },
            ));
        }
    }
}

proof fn lemma_parts_inside(p: Seq<char>, i: int, acc: Seq<PartM>)
    requires
        0 <= i <= p.len(),
        comments_closed(p),
        parse_parts(p, i, acc) is Ok,
    ensures
        parse_parts(p, i, acc) matches Ok((ps, k)) ==> {
            &&& i <= k <= p.len()
            &&& parse_parts(wrapped(p), i + 1, shift_parts(acc, 1)) == Ok::<
                (Seq<PartM>, int),
                (SyntaxError, int),
            >((shift_parts(ps, 1), k + 1))
        },
    decreases p.len() - i, 1int,
{
    let t = wrapped(p);
    lemma_skip_blank_bounds(p, i, false, false);
    lemma_skip_inside(p, i, false, false);
    let j = skip_blank(p, i, false, false);
    lemma_wrapped_index(p, j);
    if j >= p.len() || crate::syntax::ends_command(p[j]) {
    } else {
        let part: Result<(PartM, int), (SyntaxError, int)> = match kind_of(p[j]) {
            Kind::FillerOpener => {
                lemma_items_inside(p, j + 1, Seq::empty());
                assert(shift_commands(Seq::empty(), 1) =~= Seq::<CommandM>::empty());
                match parse_items(p, j + 1, Seq::empty()) {
                    Err(e) => Err(e),
                    Ok((cmds, k)) => {
                        lemma_wrapped_index(p, k);
                        if k >= p.len() {
                            Err((SyntaxError::UnclosedFiller, j))
                        } else if kind_of(p[k]) == Kind::StringCloser {
                            Err((SyntaxError::UnexpectedStringClosure, k))
                        } else {
                            Ok((PartM::Filler(cmds), k + 1))
                        }
                    },
                }
            },
            Kind::StringOpener => {
                lemma_string_inside(p, j + 1, 0, Seq::empty());
                match scan_string(p, j + 1, 0, Seq::empty()) {
                    None => Err((SyntaxError::UnclosedString, j)),
                    Some((s, k)) => Ok((PartM::Str(s), k)),
                }
            },
            _ => {
                lemma_word_inside(p, j, Seq::empty());
                match scan_word(p, j, Seq::empty()) {
                    Err(e) => Err(e),
                    Ok((w, k)) => Ok((PartM::Word(w), k)),
                }
            },
        };
        match part {
            Err(_) => {},
            Ok((q, k)) => {
                if k <= i || k > p.len() {
                } else {
                    lemma_parts_inside(p, k, acc.push(q));
                    assert(shift_parts(acc.push(q), 1) =~= shift_parts(acc, 1).push(
                        shift_part(q, 1),
                    ));
                }
            },
        }
    }
}

/// A program that parses, with no comment running to its end, parses inside
/// parentheses to one command holding one filler, and the filler holds that
/// same program, every position one further along.
pub proof fn filler_wraps_program(p: Seq<char>)
    requires
        parse_text(p) is Ok,
        comments_closed(p),
    ensures
        parse_text(wrapped(p)) == Ok::<Seq<CommandM>, (SyntaxError, int)>(
            seq![
                CommandM {
                    position: 0,
                    parts: seq![PartM::Filler(shift_commands(parse_text(p)->Ok_0, 1))],
                },
            ],
        ),
{
    let t = wrapped(p);
    let n = p.len() as int;
    lemma_items_inside(p, 0, Seq::empty());
    assert(shift_commands(Seq::empty(), 1) =~= Seq::<CommandM>::empty());
    lemma_wrapped_index(p, 0);
    let c = parse_text(p)->Ok_0;
    assert(parse_items(t, 1, Seq::empty()) == Ok::<(Seq<CommandM>, int), (SyntaxError, int)>(
        (shift_commands(c, 1), n + 1),
    ));
    assert(skip_blank(t, 0, true, false) == 0);
    assert(skip_blank(t, 0, false, false) == 0);
    assert(skip_blank(t, n + 2, false, false) == n + 2);
    assert(skip_blank(t, n + 2, true, false) == n + 2);
    let parts = seq![PartM::Filler(shift_commands(c, 1))];
    assert(Seq::<PartM>::empty().push(PartM::Filler(shift_commands(c, 1))) =~= parts);
    assert(parse_parts(t, n + 2, parts) == Ok::<(Seq<PartM>, int), (SyntaxError, int)>((parts, n + 2)));
    assert(parse_parts(t, 0, Seq::empty()) == Ok::<(Seq<PartM>, int), (SyntaxError, int)>((parts, n + 2)));
    let cmd = CommandM { position: 0, parts };
    assert(Seq::<CommandM>::empty().push(cmd) =~= seq![cmd]);
    assert(parse_items(t, n + 2, seq![cmd]) == Ok::<(Seq<CommandM>, int), (SyntaxError, int)>((seq![cmd], n + 2)));
    assert(parse_items(t, 0, Seq::empty()) == Ok::<(Seq<CommandM>, int), (SyntaxError, int)>((seq![cmd], n + 2)));
}

/// Whether every part that is a filler holds well-formed commands.
pub open spec fn parts_well_formed(ps: Seq<PartM>) -> bool
    decreases ps,
{
    forall|j: int|
        #![trigger ps[j]]
        0 <= j < ps.len() ==> match ps[j] {
            PartM::Filler(c) => commands_well_formed(c),
            _ => true,
        }
}

/// Whether every command, at every depth, has at least one part.
pub open spec fn commands_well_formed(c: Seq<CommandM>) -> bool
    decreases c,
{
    forall|i: int|
        #![trigger c[i]]
        0 <= i < c.len() ==> c[i].parts.len() > 0 && parts_well_formed(c[i].parts)
}

proof fn lemma_items_well_formed(s: Seq<char>, i: int, acc: Seq<CommandM>)
    requires
        0 <= i <= s.len(),
        commands_well_formed(acc),
    ensures
        parse_items(s, i, acc) matches Ok((c, k)) ==> commands_well_formed(c) && i <= k <= s.len(),
    decreases s.len() - i, 2int,
{
    lemma_skip_blank_bounds(s, i, true, false);
    lemma_skip_blank_stops(s, i, true, false);
    let j = skip_blank(s, i, true, false);
    if j >= s.len() || crate::syntax::ends_program(s[j]) {
    } else {
        lemma_parts_well_formed(s, j, Seq::empty());
        match parse_parts(s, j, Seq::empty()) {
            Err(_) => {},
            Ok((parts, k)) => {
                if k <= i || k > s.len() {
                } else {
                    let cmd = CommandM { position: j as nat, parts };
                    assert(commands_well_formed(acc.push(cmd))) by {
                        assert forall|m: int| 0 <= m < acc.push(cmd).len() implies #[trigger] acc.push(
                            cmd,
                        )[m].parts.len() > 0 && parts_well_formed(acc.push(cmd)[m].parts) by {
                            if m < acc.len() {
                                assert(acc.push(cmd)[m] == acc[m]);
                            }
                        }
                    }
                    lemma_items_well_formed(s, k, acc.push(cmd));
                }
            },
        }
    }
}

proof fn lemma_parts_well_formed(s: Seq<char>, i: int, acc: Seq<PartM>)
    requires
        0 <= i <= s.len(),
        parts_well_formed(acc),
    ensures
        parse_parts(s, i, acc) matches Ok((ps, k)) ==> {
            &&& parts_well_formed(ps)
            &&& i <= k <= s.len()
            &&& ps.len() >= acc.len()
            &&& (i < s.len() && skip_blank(s, i, false, false) == i && !crate::syntax::ends_command(
                s[i],
            )) ==> ps.len() > acc.len()
        },
    decreases s.len() - i, 1int,
{
    lemma_skip_blank_bounds(s, i, false, false);
    lemma_skip_blank_stops(s, i, false, false);
    let j = skip_blank(s, i, false, false);
    if j >= s.len() || crate::syntax::ends_command(s[j]) {
    } else {
        let part: Result<(PartM, int), (SyntaxError, int)> = match kind_of(s[j]) {
            Kind::FillerOpener => {
                lemma_items_well_formed(s, j + 1, Seq::empty());
                match parse_items(s, j + 1, Seq::empty()) {
                    Err(e) => Err(e),
                    Ok((cmds, k)) => if k >= s.len() {
                        Err((SyntaxError::UnclosedFiller, j))
                    } else if kind_of(s[k]) == Kind::StringCloser {
                        Err((SyntaxError::UnexpectedStringClosure, k))
                    } else {
                        Ok((PartM::Filler(cmds), k + 1))
                    },
                }
            },
            Kind::StringOpener => {
                lemma_scan_string_bounds(s, j + 1, 0, Seq::empty());
                match scan_string(s, j + 1, 0, Seq::empty()) {
                    None => Err((SyntaxError::UnclosedString, j)),
                    Some((t, k)) => Ok((PartM::Str(t), k)),
                }
            },
            _ => {
                lemma_scan_word_bounds(s, j, Seq::empty());
                match scan_word(s, j, Seq::empty()) {
                    Err(e) => Err(e),
                    Ok((w, k)) => Ok((PartM::Word(w), k)),
                }
            },
        };
        match part {
            Err(_) => {},
            Ok((q, k)) => {
                if k <= i || k > s.len() {
                } else {
                    assert(parts_well_formed(acc.push(q))) by {
                        assert forall|m: int| 0 <= m < acc.push(q).len() implies match #[trigger] acc.push(
                            q,
                        )[m] {
                            PartM::Filler(c) => commands_well_formed(c),
                            _ => true,
                        } by {
                            if m < acc.len() {
                                assert(acc.push(q)[m] == acc[m]);
                            }
                        }
                    }
                    lemma_parts_well_formed(s, k, acc.push(q));
                }
            },
        }
    }
}

proof fn lemma_scan_word_bounds(s: Seq<char>, i: int, acc: Seq<char>)
    requires
        0 <= i <= s.len(),
    ensures
        scan_word(s, i, acc) matches Ok((_, k)) ==> {
            &&& i <= k <= s.len()
            &&& (i < s.len() && (kind_of(s[i]) == Kind::Literal || kind_of(s[i]) == Kind::Escape))
                ==> k > i
        },
    decreases s.len() - i,
{
    if i < s.len() {
        lemma_scan_word_bounds(s, i + 1, acc.push(s[i]));
        if i + 1 < s.len() {
            lemma_scan_word_bounds(s, i + 2, acc.push(s[i + 1]));
        }
    }
}

proof fn lemma_scan_string_bounds(s: Seq<char>, i: int, depth: nat, acc: Seq<char>)
    requires
        0 <= i <= s.len(),
    ensures
        scan_string(s, i, depth, acc) matches Some((_, k)) ==> i < k <= s.len(),
    decreases s.len() - i,
{
    if i < s.len() {
        lemma_scan_string_bounds(s, i + 1, depth + 1, acc.push(s[i]));
        lemma_scan_string_bounds(s, i + 1, depth, acc.push(s[i]));
        if depth > 0 {
            lemma_scan_string_bounds(s, i + 1, (depth - 1) as nat, acc.push(s[i]));
        }
        if i + 1 < s.len() {
            lemma_scan_string_bounds(s, i + 2, depth, acc.push(s[i]).push(s[i + 1]));
        }
    }
}

/// Every command of a parsed text, at every depth of fillers, has at least
/// one part.
pub proof fn parsed_commands_are_not_empty(s: Seq<char>)
    ensures
        parse_text(s) matches Ok(c) ==> commands_well_formed(c),
{
    lemma_items_well_formed(s, 0, Seq::empty());
}

} // verus!
