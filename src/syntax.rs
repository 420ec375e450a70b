//! The grammar of Pon: text becomes a `Program` of `Command`s, each a
//! sequence of words, brace-delimited strings and parenthesized fillers.
use vstd::prelude::*;
use crate::text::{chars_of, push_char};

verus! {

/// What a character means to the scanner.
#[derive(PartialEq, Eq, Structural, Clone, Copy, Debug)]
pub enum Kind {
    /// Intra-line whitespace: space, tab, carriage return.
    WordSeparator,
    /// `;` or a newline.
    CommandSeparator,
    /// `(`
    FillerOpener,
    /// `)`
    FillerCloser,
    /// `{`
    StringOpener,
    /// `}`
    StringCloser,
    /// `|`, which starts a comment running to the end of the line.
    CommentOpener,
    /// `\`, which makes the next character literal.
    Escape,
    /// Any other character.
    Literal,
}

pub open spec fn kind_of(c: char) -> Kind {
    if c == ' ' || c == '\t' || c == '\r' {
        Kind::WordSeparator
    } else if c == ';' || c == '\n' {
        Kind::CommandSeparator
    } else if c == '(' {
        Kind::FillerOpener
    } else if c == ')' {
        Kind::FillerCloser
    } else if c == '{' {
        Kind::StringOpener
    } else if c == '}' {
        Kind::StringCloser
    } else if c == '|' {
        Kind::CommentOpener
    } else if c == '\\' {
        Kind::Escape
    } else {
        Kind::Literal
    }
}

/// Classifies one character.
pub fn kind(c: char) -> (k: Kind)
    ensures
        k == kind_of(c),
{
    if c == ' ' || c == '\t' || c == '\r' {
        Kind::WordSeparator
    } else if c == ';' || c == '\n' {
        Kind::CommandSeparator
    } else if c == '(' {
        Kind::FillerOpener
    } else if c == ')' {
        Kind::FillerCloser
    } else if c == '{' {
        Kind::StringOpener
    } else if c == '}' {
        Kind::StringCloser
    } else if c == '|' {
        Kind::CommentOpener
    } else if c == '\\' {
        Kind::Escape
    } else {
        Kind::Literal
    }
}

/// A fatal syntax error; its position travels beside it in a `Positioned`.
#[derive(PartialEq, Eq, Structural, Clone, Copy, Debug)]
pub enum SyntaxError {
    /// A `\` is the last character of the input (outside a string).
    EscapeAtEndOfInput,
    /// A `{` has no matching `}`; the position is the opening brace.
    UnclosedString,
    /// A `(` has no matching `)`; the position is the opening parenthesis.
    UnclosedFiller,
    /// A `}` that closes nothing; the position is that brace.
    UnexpectedStringClosure,
    /// A `)` that closes nothing; the position is that parenthesis.
    UnexpectedFillerClosure,
}

/// A value tagged with a character offset into the source text.
#[derive(Debug)]
pub struct Positioned<T> {
    pub position: usize,
    pub entity: T,
}

/// One part of a command.
#[derive(Debug)]
pub enum NamePart {
    /// A run of literal characters.
    Word(String),
    /// The text between a `{` and its matching `}`, verbatim.
    String(String),
    /// A parenthesized sub-program.
    Filler(Program),
}

/// A non-empty sequence of parts, tagged with the offset of its first character.
#[derive(Debug)]
pub struct Command {
    pub position: usize,
    pub parts: Vec<NamePart>,
}

/// The commands of a text, in order.
#[derive(Debug)]
pub struct Program {
    pub commands: Vec<Command>,
}

/// The mathematical form of a `NamePart`.
pub enum PartM {
    Word(Seq<char>),
    Str(Seq<char>),
    Filler(Seq<CommandM>),
}

/// The mathematical form of a `Command`.
pub struct CommandM {
    pub position: nat,
    pub parts: Seq<PartM>,
}

impl View for NamePart {
    type V = PartM;

    open spec fn view(&self) -> PartM
        decreases self,
    {
        match self {
            NamePart::Word(w) => PartM::Word(w@),
            NamePart::String(t) => PartM::Str(t@),
            NamePart::Filler(p) => PartM::Filler(p.view()),
        }
    }
}

impl View for Command {
    type V = CommandM;

    open spec fn view(&self) -> CommandM
        decreases self,
    {
        CommandM {
            position: self.position as nat,
            parts: Seq::new(
                self.parts.len() as nat,
                |i: int|
                    if 0 <= i < self.parts.len() {
                        self.parts[i].view()
                    } else {
                        PartM::Word(Seq::empty())
                    },
            ),
        }
    }
}

impl View for Program {
    type V = Seq<CommandM>;

    open spec fn view(&self) -> Seq<CommandM>
        decreases self,
    {
        Seq::new(
            self.commands.len() as nat,
            |i: int|
                if 0 <= i < self.commands.len() {
                    self.commands[i].view()
                } else {
                    CommandM { position: 0, parts: Seq::empty() }
                },
        )
    }
}

pub open spec fn view_parts(v: Seq<NamePart>) -> Seq<PartM> {
    v.map_values(|p: NamePart| p@)
}

pub open spec fn view_commands(v: Seq<Command>) -> Seq<CommandM> {
    v.map_values(|c: Command| c@)
}

/// A parse of something from a position: what was read and where reading
/// stopped, or an error and its position.
pub type Parsed<T> = Result<(T, int), (SyntaxError, int)>;

/// Where skipping from `i` stops: intra-line whitespace and comments are
/// skipped, command separators too when `seps` holds; `comment` says that `i`
/// lies inside a comment.
pub open spec fn skip_blank(s: Seq<char>, i: int, seps: bool, comment: bool) -> int
    decreases s.len() - i,
{
    if i < 0 || i >= s.len() {
        i
    } else if comment {
        if s[i] == '\n' {
            if seps {
                skip_blank(s, i + 1, seps, false)
            } else {
                i
            }
        } else {
            skip_blank(s, i + 1, seps, true)
        }
    } else {
        match kind_of(s[i]) {
            Kind::WordSeparator => skip_blank(s, i + 1, seps, false),
            Kind::CommandSeparator => if seps {
                skip_blank(s, i + 1, seps, false)
            } else {
                i
            },
            Kind::CommentOpener => skip_blank(s, i + 1, seps, true),
            _ => i,
        }
    }
}

pub proof fn lemma_skip_blank_bounds(s: Seq<char>, i: int, seps: bool, comment: bool)
    ensures
        skip_blank(s, i, seps, comment) >= i,
        0 <= i <= s.len() ==> skip_blank(s, i, seps, comment) <= s.len(),
    decreases s.len() - i,
{
    if 0 <= i < s.len() {
        lemma_skip_blank_bounds(s, i + 1, seps, false);
        lemma_skip_blank_bounds(s, i + 1, seps, true);
    }
}

pub proof fn lemma_skip_blank_stops(s: Seq<char>, i: int, seps: bool, comment: bool)
    requires
        0 <= i,
    ensures
        ({
            let j = skip_blank(s, i, seps, comment);
            j < s.len() ==> {
                &&& kind_of(s[j]) != Kind::WordSeparator
                &&& kind_of(s[j]) != Kind::CommentOpener
                &&& seps ==> kind_of(s[j]) != Kind::CommandSeparator
                &&& skip_blank(s, j, seps, false) == j
            }
        }),
    decreases s.len() - i,
{
    if 0 <= i < s.len() {
        lemma_skip_blank_stops(s, i + 1, seps, false);
        lemma_skip_blank_stops(s, i + 1, seps, true);
    }
}

/// A word read from `i`, `acc` holding what was read before: literal
/// characters, and after a `\` any character, up to the first character that
/// ends a word.
pub open spec fn scan_word(s: Seq<char>, i: int, acc: Seq<char>) -> Parsed<Seq<char>>
    decreases s.len() - i,
{
    if i < 0 || i >= s.len() {
        Ok((acc, i))
    } else {
        match kind_of(s[i]) {
            Kind::Escape => if i + 1 >= s.len() {
                Err((SyntaxError::EscapeAtEndOfInput, i))
            } else {
                scan_word(s, i + 2, acc.push(s[i + 1]))
            },
            Kind::Literal => scan_word(s, i + 1, acc.push(s[i])),
            _ => Ok((acc, i)),
        }
    }
}

/// The content of a string read from `i` (just after its `{`), `depth` braces
/// being open inside it and `acc` read so far, and the position just after its
/// closing `}`; `None` when the input ends first. Escapes are kept verbatim
/// and hide the escaped brace from the count.
pub open spec fn scan_string(s: Seq<char>, i: int, depth: nat, acc: Seq<char>) -> Option<(Seq<char>, int)>
    decreases s.len() - i,
{
    if i < 0 || i >= s.len() {
        None
    } else {
        match kind_of(s[i]) {
            Kind::Escape => if i + 1 >= s.len() {
                None
            } else {
                scan_string(s, i + 2, depth, acc.push(s[i]).push(s[i + 1]))
            },
            Kind::StringOpener => scan_string(s, i + 1, depth + 1, acc.push(s[i])),
            Kind::StringCloser => if depth == 0 {
                Some((acc, i + 1))
            } else {
                scan_string(s, i + 1, (depth - 1) as nat, acc.push(s[i]))
            },
            _ => scan_string(s, i + 1, depth, acc.push(s[i])),
        }
    }
}

/// Whether `c` ends a command (without being part of it).
pub open spec fn ends_command(c: char) -> bool {
    kind_of(c) == Kind::CommandSeparator || kind_of(c) == Kind::FillerCloser || kind_of(c)
        == Kind::StringCloser
}

/// Whether `c` ends a program (without being part of it).
pub open spec fn ends_program(c: char) -> bool {
    kind_of(c) == Kind::FillerCloser || kind_of(c) == Kind::StringCloser
}

/// The commands read from `i`, after `acc`: commands and blanks up to the end
/// of the input or an unmatched `)` or `}`, where reading stops.
pub open spec fn parse_items(s: Seq<char>, i: int, acc: Seq<CommandM>) -> Parsed<Seq<CommandM>>
    decreases s.len() - i, 2int,
{
    if i < 0 || i > s.len() {
        Ok((acc, i))
    } else {
    proof {
        lemma_skip_blank_bounds(s, i, true, false);
    }
    let j = skip_blank(s, i, true, false);
    if j >= s.len() || ends_program(s[j]) {
        Ok((acc, j))
    } else {
        match parse_parts(s, j, Seq::empty()) {
            Err(e) => Err(e),
            Ok((parts, k)) => if k <= i || k > s.len() {
                // never taken: a command holds at least one character
                Ok((acc, k))
            } else {
                parse_items(s, k, acc.push(CommandM { position: j as nat, parts }))
            },
        }
    }
    }
}

/// The parts read from `i`, after `acc`, up to the end of the input or of the
/// command, where reading stops.
pub open spec fn parse_parts(s: Seq<char>, i: int, acc: Seq<PartM>) -> Parsed<Seq<PartM>>
    decreases s.len() - i, 1int,
{
    if i < 0 || i > s.len() {
        Ok((acc, i))
    } else {
    proof {
        lemma_skip_blank_bounds(s, i, false, false);
    }
    let j = skip_blank(s, i, false, false);
    if j >= s.len() || ends_command(s[j]) {
        Ok((acc, j))
    } else {
        let part: Parsed<PartM> = match kind_of(s[j]) {
            Kind::FillerOpener => match parse_items(s, j + 1, Seq::empty()) {
                Err(e) => Err(e),
                Ok((cmds, k)) => if k >= s.len() {
                    Err((SyntaxError::UnclosedFiller, j))
                } else if kind_of(s[k]) == Kind::StringCloser {
                    Err((SyntaxError::UnexpectedStringClosure, k))
                } else {
                    Ok((PartM::Filler(cmds), k + 1))
                },
            },
            Kind::StringOpener => match scan_string(s, j + 1, 0, Seq::empty()) {
                None => Err((SyntaxError::UnclosedString, j)),
                Some((t, k)) => Ok((PartM::Str(t), k)),
            },
            _ => match scan_word(s, j, Seq::empty()) {
                Err(e) => Err(e),
                Ok((w, k)) => Ok((PartM::Word(w), k)),
            },
        };
        match part {
            Err(e) => Err(e),
            Ok((p, k)) => if k <= i || k > s.len() {
                // never taken: a part holds at least one character
                Ok((acc, k))
            } else {
                parse_parts(s, k, acc.push(p))
            },
        }
    }
    }
}

/// The program that text `s` holds, or the first syntax error in it.
pub open spec fn parse_text(s: Seq<char>) -> Result<Seq<CommandM>, (SyntaxError, int)> {
    match parse_items(s, 0, Seq::empty()) {
        Err(e) => Err(e),
        Ok((cmds, k)) => if k >= s.len() {
            Ok(cmds)
        } else if kind_of(s[k]) == Kind::FillerCloser {
            Err((SyntaxError::UnexpectedFillerClosure, k))
        } else {
            Err((SyntaxError::UnexpectedStringClosure, k))
        },
    }
}

/// Whether an exec parse agrees with a spec parse of the same thing.
pub open spec fn agrees<T, V>(r: Result<(T, usize), Positioned<SyntaxError>>, m: Parsed<V>, view: spec_fn(T) -> V) -> bool {
    match (r, m) {
        (Ok((t, k)), Ok((v, km))) => view(t) == v && k as int == km,
        (Err(e), Err((kind, at))) => e.entity == kind && e.position as int == at,
        _ => false,
    }
}

fn skip_blank_exec(s: &Vec<char>, i: usize, seps: bool) -> (j: usize)
    requires
        i <= s.len(),
    ensures
        j as int == skip_blank(s@, i as int, seps, false),
        i <= j <= s.len(),
{
    let mut j = i;
    let mut comment = false;
    while j < s.len()
        invariant
            i <= j <= s.len(),
            skip_blank(s@, i as int, seps, false) == skip_blank(s@, j as int, seps, comment),
        decreases s.len() - j,
    {
        let c = s[j];
        if comment {
            if c == '\n' {
                if seps {
                    comment = false;
                } else {
                    return j;
                }
            }
        } else {
            match kind(c) {
                Kind::WordSeparator => {},
                Kind::CommandSeparator => {
                    if !seps {
                        return j;
                    }
                },
                Kind::CommentOpener => {
                    comment = true;
                },
                _ => {
                    return j;
                },
            }
        }
        j = j + 1;
    }
    j
}

fn scan_word_exec(s: &Vec<char>, i: usize) -> (r: Result<(String, usize), Positioned<SyntaxError>>)
    requires
        i < s.len(),
        kind_of(s@[i as int]) == Kind::Literal || kind_of(s@[i as int]) == Kind::Escape,
    ensures
        agrees(r, scan_word(s@, i as int, Seq::empty()), |w: String| w@),
        r is Ok ==> i < r->Ok_0.1 <= s.len(),
{
    let mut w = String::new();
    let mut j = i;
    while j < s.len()
        invariant
            i <= j <= s.len(),
            kind_of(s@[i as int]) == Kind::Literal || kind_of(s@[i as int]) == Kind::Escape,
            scan_word(s@, i as int, Seq::empty()) == scan_word(s@, j as int, w@),
        decreases s.len() - j,
    {
        let c = s[j];
        match kind(c) {
            Kind::Escape => {
                if j + 1 >= s.len() {
                    return Err(Positioned { position: j, entity: SyntaxError::EscapeAtEndOfInput });
                }
                push_char(&mut w, s[j + 1]);
                j = j + 2;
            },
            Kind::Literal => {
                push_char(&mut w, c);
                j = j + 1;
            },
            _ => {
                return Ok((w, j));
            },
        }
    }
    Ok((w, j))
}

fn scan_string_exec(s: &Vec<char>, i: usize) -> (r: Option<(String, usize)>)
    requires
        i <= s.len(),
    ensures
        match (r, scan_string(s@, i as int, 0, Seq::empty())) {
            (Some((t, k)), Some((tm, km))) => t@ == tm && k as int == km,
            (None, None) => true,
            _ => false,
        },
        r matches Some((_, k)) ==> i < k <= s.len(),
{
    let mut t = String::new();
    let mut j = i;
    let mut depth: usize = 0;
    while j < s.len()
        invariant
            i <= j <= s.len(),
            depth <= j,
            scan_string(s@, i as int, 0, Seq::empty()) == scan_string(s@, j as int, depth as nat, t@),
        decreases s.len() - j,
    {
        let c = s[j];
        match kind(c) {
            Kind::Escape => {
                if j + 1 >= s.len() {
                    return None;
                }
                push_char(&mut t, c);
                push_char(&mut t, s[j + 1]);
                j = j + 2;
            },
            Kind::StringOpener => {
                push_char(&mut t, c);
                depth = depth + 1;
                j = j + 1;
            },
            Kind::StringCloser => {
                if depth == 0 {
                    return Some((t, j + 1));
                }
                push_char(&mut t, c);
                depth = depth - 1;
                j = j + 1;
            },
            _ => {
                push_char(&mut t, c);
                j = j + 1;
            },
        }
    }
    None
}

fn parse_items_exec(s: &Vec<char>, i: usize) -> (r: Result<(Vec<Command>, usize), Positioned<SyntaxError>>)
    requires
        i <= s.len(),
    ensures
        agrees(r, parse_items(s@, i as int, Seq::empty()), |v: Vec<Command>| view_commands(v@)),
        r matches Ok((_, k)) ==> i <= k <= s.len(),
    decreases s.len() - i, 2int,
{
    let mut cmds: Vec<Command> = Vec::new();
    let mut pos = i;
    assert(view_commands(cmds@) =~= Seq::empty());
    loop
        invariant
            i <= pos <= s.len(),
            parse_items(s@, i as int, Seq::empty()) == parse_items(s@, pos as int, view_commands(cmds@)),
        decreases s.len() - pos,
    {
        let j = skip_blank_exec(s, pos, true);
        proof {
            lemma_skip_blank_stops(s@, pos as int, true, false);
        }
        if j >= s.len() {
            return Ok((cmds, j));
        }
        let k0 = kind(s[j]);
        if k0 == Kind::FillerCloser || k0 == Kind::StringCloser {
            return Ok((cmds, j));
        }
        match parse_parts_exec(s, j) {
            Err(e) => {
                return Err(e);
            },
            Ok((parts, k)) => {
                let ghost old_cmds = cmds@;
                let c = Command { position: j, parts };
                assert(c@.parts =~= view_parts(c.parts@));
                cmds.push(c);
                assert(view_commands(cmds@) =~= view_commands(old_cmds).push(
                    CommandM { position: j as nat, parts: view_parts(parts@) },
                ));
                pos = k;
            },
        }
    }
}

fn parse_parts_exec(s: &Vec<char>, i: usize) -> (r: Result<(Vec<NamePart>, usize), Positioned<SyntaxError>>)
    requires
        i < s.len(),
        skip_blank(s@, i as int, false, false) == i,
        !ends_command(s@[i as int]),
    ensures
        agrees(r, parse_parts(s@, i as int, Seq::empty()), |v: Vec<NamePart>| view_parts(v@)),
        r is Ok ==> i < r->Ok_0.1 <= s.len(),
    decreases s.len() - i, 1int,
{
    let mut parts: Vec<NamePart> = Vec::new();
    let mut pos = i;
    assert(view_parts(parts@) =~= Seq::empty());
    loop
        invariant
            i <= pos <= s.len(),
            skip_blank(s@, i as int, false, false) == i,
            i < s.len(),
            !ends_command(s@[i as int]),
            parse_parts(s@, i as int, Seq::empty()) == parse_parts(s@, pos as int, view_parts(parts@)),
        decreases s.len() - pos,
    {
        let j = skip_blank_exec(s, pos, false);
        proof {
            lemma_skip_blank_stops(s@, pos as int, false, false);
        }
        if j >= s.len() {
            return Ok((parts, j));
        }
        let k0 = kind(s[j]);
        if k0 == Kind::CommandSeparator || k0 == Kind::FillerCloser || k0 == Kind::StringCloser {
            return Ok((parts, j));
        }
        let ghost old_parts = parts@;
        let next: usize;
        if k0 == Kind::FillerOpener {
            match parse_items_exec(s, j + 1) {
                Err(e) => {
                    return Err(e);
                },
                Ok((cmds, k)) => {
                    if k >= s.len() {
                        return Err(Positioned { position: j, entity: SyntaxError::UnclosedFiller });
                    }
                    if kind(s[k]) == Kind::StringCloser {
                        return Err(
                            Positioned { position: k, entity: SyntaxError::UnexpectedStringClosure },
                        );
                    }
                    let p = Program { commands: cmds };
                    assert(p@ =~= view_commands(cmds@));
                    parts.push(NamePart::Filler(p));
                    next = k + 1;
                },
            }
        } else if k0 == Kind::StringOpener {
            match scan_string_exec(s, j + 1) {
                None => {
                    return Err(Positioned { position: j, entity: SyntaxError::UnclosedString });
                },
                Some((t, k)) => {
                    parts.push(NamePart::String(t));
                    next = k;
                },
            }
        } else {
            match scan_word_exec(s, j) {
                Err(e) => {
                    return Err(e);
                },
                Ok((w, k)) => {
                    parts.push(NamePart::Word(w));
                    next = k;
                },
            }
        }
        assert(view_parts(parts@) =~= view_parts(old_parts).push(parts@.last()@));
        pos = next;
    }
}

/// Parses a whole text: the program it holds, or its first syntax error.
pub fn parse(text: &str) -> (r: Result<Program, Positioned<SyntaxError>>)
    ensures
        match (r, parse_text(text@)) {
            (Ok(p), Ok(m)) => p@ == m,
            (Err(e), Err((kind, at))) => e.entity == kind && e.position as int == at,
            _ => false,
        },
{
    let s = chars_of(text);
    match parse_items_exec(&s, 0) {
        Err(e) => Err(e),
        Ok((cmds, k)) => {
            if k >= s.len() {
                let p = Program { commands: cmds };
                assert(p@ =~= view_commands(cmds@));
                Ok(p)
            } else if kind(s[k]) == Kind::FillerCloser {
                Err(Positioned { position: k, entity: SyntaxError::UnexpectedFillerClosure })
            } else {
                Err(Positioned { position: k, entity: SyntaxError::UnexpectedStringClosure })
            }
        },
    }
}

/// How an attempt to parse buffered interactive input ended.
#[derive(Debug)]
pub enum After {
    /// The text is a whole program.
    CleanEnd(Program),
    /// A string or filler opened at this position is still open: more input
    /// may complete it.
    NeedMoreInput(usize),
    /// A syntax error that more input cannot mend.
    FatalError(Positioned<SyntaxError>),
}

/// Parses buffered interactive input, telling an unclosed string or filler
/// (which more input may close) from the other syntax errors.
pub fn parse_repl(text: &str) -> (r: After)
    ensures
        match parse_text(text@) {
            Ok(m) => r matches After::CleanEnd(p) && p@ == m,
            Err((kind, at)) => if kind == SyntaxError::UnclosedString || kind
                == SyntaxError::UnclosedFiller {
                r matches After::NeedMoreInput(n) && n as int == at
            } else {
                r matches After::FatalError(e) && e.entity == kind && e.position as int == at
            },
        },
{
    match parse(text) {
        Ok(p) => After::CleanEnd(p),
        Err(e) => {
            if e.entity == SyntaxError::UnclosedString || e.entity == SyntaxError::UnclosedFiller {
                After::NeedMoreInput(e.position)
            } else {
                After::FatalError(e)
            }
        },
    }
}

} // verus!
