//! The driver around the registry: the minimal command language of the
//! prompt (`class`, `describir`, `salir`), its tokenizer and parser, and the
//! program state that applies parsed actions to the registry. Reading the
//! prompt and printing answers stay with the caller.

use crate::method_table::{
    names_view, opt_name, register_effect, register_outcome, registry_ok, render, ClassError,
    ClassManager, ClassName, Function, Outcome, RegistryView,
};
use vstd::prelude::*;
use vstd::string::{StrSliceExecFns, StringExecFns};

verus! {

/// The characters a command line is split on, besides the colon.
pub open spec fn is_space_char(c: char) -> bool {
    c == ' ' || c == '\t' || c == '\n' || c == '\r' || c == '\u{b}' || c == '\u{c}' || c
        == '\u{85}' || c == '\u{a0}' || c == '\u{1680}' || (0x2000 <= c as u32 && c as u32
        <= 0x200a) || c == '\u{2028}' || c == '\u{2029}' || c == '\u{202f}' || c == '\u{205f}' || c
        == '\u{3000}'
}

/// A finished token, or nothing when no token was in progress.
pub open spec fn flush(cur: Seq<char>) -> Seq<Seq<char>> {
    if cur.len() > 0 {
        seq![cur]
    } else {
        Seq::empty()
    }
}

/// The tokens of `s` from position `i` on, with `cur` the token in progress:
/// spaces end a token, a colon both ends one and is a token of its own, and
/// any other character extends the one in progress.
pub open spec fn tokens_go(s: Seq<char>, i: int, cur: Seq<char>) -> Seq<Seq<char>>
    decreases s.len() - i,
{
    if i < 0 || i >= s.len() {
        flush(cur)
    } else if is_space_char(s[i]) {
        flush(cur) + tokens_go(s, i + 1, Seq::empty())
    } else if s[i] == ':' {
        flush(cur) + seq![seq![':']] + tokens_go(s, i + 1, Seq::empty())
    } else {
        tokens_go(s, i + 1, cur.push(s[i]))
    }
}

/// The tokens of a whole command line.
pub open spec fn tokens_of(s: Seq<char>) -> Seq<Seq<char>> {
    tokens_go(s, 0, Seq::empty())
}

/// An upper-case ASCII letter lowered; anything else unchanged.
pub open spec fn lower_char(c: char) -> char {
    match c {
        'A' => 'a',
        'B' => 'b',
        'C' => 'c',
        'D' => 'd',
        'E' => 'e',
        'F' => 'f',
        'G' => 'g',
        'H' => 'h',
        'I' => 'i',
        'J' => 'j',
        'K' => 'k',
        'L' => 'l',
        'M' => 'm',
        'N' => 'n',
        'O' => 'o',
        'P' => 'p',
        'Q' => 'q',
        'R' => 'r',
        'S' => 's',
        'T' => 't',
        'U' => 'u',
        'V' => 'v',
        'W' => 'w',
        'X' => 'x',
        'Y' => 'y',
        'Z' => 'z',
        _ => c,
    }
}

/// A whole word lowered character by character.
pub open spec fn lower_of(s: Seq<char>) -> Seq<char> {
    Seq::new(s.len(), |i: int| lower_char(s[i]))
}

/// Some name occurs twice in the list.
pub open spec fn has_duplicate(ms: Seq<Seq<char>>) -> bool {
    exists|i: int, j: int| 0 <= i < j < ms.len() && ms[i] == ms[j]
}

/// The views of a list of borrowed words.
pub open spec fn strs_view(v: Seq<&str>) -> Seq<Seq<char>> {
    Seq::new(v.len(), |i: int| v[i]@)
}

/// What the driver does with one parsed command line.
#[derive(Debug, PartialEq, Eq)]
pub enum Action {
    /// Stop the prompt loop.
    Exit,
    /// Describe the named class.
    Show(String),
    /// Register a class: name, optional parent, declared methods.
    Create(ClassName, Option<ClassName>, Vec<Function>),
}

/// Why a command line could not be read as an action.
#[derive(Debug, PartialEq, Eq)]
pub enum ProgramError {
    /// The first word names no known action.
    InvalidAction(String),
    /// The line holds no word at all.
    NoInput,
    /// The action's required arguments are missing.
    NotEnoughArgs,
    /// The arguments cannot be used, as one line: a second word after the
    /// class to describe, or a method declared twice.
    InvalidArguments,
}

/// What parsing the arguments of a `describir` line returns: the single class
/// name to show, or the error naming what is wrong.
pub open spec fn show_parse_post(ts: Seq<Seq<char>>, r: Result<Action, ProgramError>) -> bool {
    if ts.len() == 0 {
        r matches Err(ProgramError::NotEnoughArgs)
    } else if ts.len() > 1 {
        r matches Err(ProgramError::InvalidArguments)
    } else {
        r matches Ok(Action::Show(c)) && c@ == ts[0]
    }
}

/// What parsing the arguments of a `class` line returns: the class name, an
/// optional `: parent` right after it, then the declared methods, which may
/// not repeat; or the error naming what is wrong.
pub open spec fn class_parse_post(ts: Seq<Seq<char>>, r: Result<Action, ProgramError>) -> bool {
    if ts.len() == 0 {
        r matches Err(ProgramError::NotEnoughArgs)
    } else if ts.len() >= 2 && ts[1] == seq![':'] {
        if ts.len() == 2 {
            r matches Err(ProgramError::NotEnoughArgs)
        } else if has_duplicate(ts.skip(3)) {
            r matches Err(ProgramError::InvalidArguments)
        } else {
            r matches Ok(Action::Create(c, p, ms)) && c@ == ts[0] && (p matches Some(q) && q@
                == ts[2]) && names_view(ms@) == ts.skip(3)
        }
    } else {
        if has_duplicate(ts.skip(1)) {
            r matches Err(ProgramError::InvalidArguments)
        } else {
            r matches Ok(Action::Create(c, p, ms)) && c@ == ts[0] && p is None && names_view(ms@)
                == ts.skip(1)
        }
    }
}

/// What parsing a whole command line returns: the first word, lowered, picks
/// the action, and the remaining words are its arguments.
pub open spec fn parse_post(s: Seq<char>, r: Result<Action, ProgramError>) -> bool {
    let ts = tokens_of(s);
    if ts.len() == 0 {
        r matches Err(ProgramError::NoInput)
    } else {
        let a = lower_of(ts[0]);
        if a == "describir"@ {
            show_parse_post(ts.drop_first(), r)
        } else if a == "class"@ {
            class_parse_post(ts.drop_first(), r)
        } else if a == "salir"@ {
            r matches Ok(Action::Exit)
        } else {
            r matches Err(ProgramError::InvalidAction(t)) && t@ == a
        }
    }
}

/// The text a parse error is displayed as: the variant's name, with the
/// offending word quoted inside parentheses where there is one.
pub open spec fn program_error_text(e: ProgramError) -> Seq<char> {
    match e {
        ProgramError::InvalidAction(s) => "InvalidAction(\""@ + s@ + "\")"@,
        ProgramError::NoInput => "NoInput"@,
        ProgramError::NotEnoughArgs => "NotEnoughArgs"@,
        ProgramError::InvalidArguments => "InvalidArguments"@,
    }
}

/// Relies on String::push: it appends the given character at the end.
#[verifier::external_body]
fn push_char(s: &mut String, c: char)
    ensures
        final(s)@ == old(s)@.push(c),
{
    s.push(c);
}

/// Whether a command line is split at this character.
fn is_space(c: char) -> (r: bool)
    ensures
        r == is_space_char(c),
{
    c == ' ' || c == '\t' || c == '\n' || c == '\r' || c == '\u{b}' || c == '\u{c}' || c
        == '\u{85}' || c == '\u{a0}' || c == '\u{1680}' || (0x2000 <= c as u32 && c as u32
        <= 0x200a) || c == '\u{2028}' || c == '\u{2029}' || c == '\u{202f}' || c == '\u{205f}' || c
        == '\u{3000}'
}

/// Lower one character, as the spec does.
fn lower_ascii(c: char) -> (r: char)
    ensures
        r == lower_char(c),
{
    match c {
        'A' => 'a',
        'B' => 'b',
        'C' => 'c',
        'D' => 'd',
        'E' => 'e',
        'F' => 'f',
        'G' => 'g',
        'H' => 'h',
        'I' => 'i',
        'J' => 'j',
        'K' => 'k',
        'L' => 'l',
        'M' => 'm',
        'N' => 'n',
        'O' => 'o',
        'P' => 'p',
        'Q' => 'q',
        'R' => 'r',
        'S' => 's',
        'T' => 't',
        'U' => 'u',
        'V' => 'v',
        'W' => 'w',
        'X' => 'x',
        'Y' => 'y',
        'Z' => 'z',
        _ => c,
    }
}

/// Lower a whole word.
fn lower_str(s: &str) -> (r: String)
    ensures
        r@ == lower_of(s@),
{
    let n = s.unicode_len();
    let mut r = String::new();
    let mut i: usize = 0;
    while i < n
        invariant
            i <= n,
            n == s@.len(),
            r@ == lower_of(s@.take(i as int)),
        decreases n - i,
    {
        let c = s.get_char(i);
        let lc = lower_ascii(c);
        push_char(&mut r, lc);
        proof {
            assert(r@ =~= lower_of(s@.take(i + 1)));
        }
        i += 1;
    }
    proof {
        assert(s@.take(n as int) =~= s@);
    }
    r
}

/// Whether two words read the same.
fn str_eq(a: &str, b: &str) -> (r: bool)
    ensures
        r == (a@ == b@),
{
    let na = a.unicode_len();
    let nb = b.unicode_len();
    if na != nb {
        return false;
    }
    let mut i: usize = 0;
    while i < na
        invariant
            i <= na,
            na == a@.len(),
            na == b@.len(),
            forall|j: int| 0 <= j < i ==> a@[j] == b@[j],
        decreases na - i,
    {
        let ca = a.get_char(i);
        let cb = b.get_char(i);
        if ca != cb {
            return false;
        }
        i += 1;
    }
    proof {
        assert(a@ =~= b@);
    }
    true
}

/// Split a command line into its words, a colon counting as a word of its
/// own wherever it stands.
pub fn tokenize(s: &str) -> (r: Vec<String>)
    ensures
        names_view(r@) == tokens_of(s@),
{
    let n = s.unicode_len();
    let mut r: Vec<String> = Vec::new();
    let mut cur = String::new();
    let mut i: usize = 0;
    while i < n
        invariant
            i <= n,
            n == s@.len(),
            names_view(r@) + tokens_go(s@, i as int, cur@) == tokens_of(s@),
        decreases n - i,
    {
        let ghost rs = names_view(r@);
        let ghost cv = cur@;
        let ghost tail = tokens_go(s@, i + 1, Seq::<char>::empty());
        let c = s.get_char(i);
        if is_space(c) {
            if !cur.as_str().is_empty() {
                r.push(cur);
                cur = String::new();
                proof {
                    assert(names_view(r@) =~= rs.push(cv));
                    assert(names_view(r@) + tail =~= rs + (flush(cv) + tail));
                }
            } else {
                proof {
                    assert(cv =~= Seq::<char>::empty());
                    assert(names_view(r@) + tail =~= rs + (flush(cv) + tail));
                }
            }
        } else if c == ':' {
            if !cur.as_str().is_empty() {
                r.push(cur);
                cur = String::new();
                proof {
                    assert(names_view(r@) =~= rs.push(cv));
                }
            } else {
                proof {
                    assert(cv =~= Seq::<char>::empty());
                }
            }
            let ghost rs2 = names_view(r@);
            r.push(String::from_str(":"));
            proof {
                reveal_strlit(":");
                assert(":"@ =~= seq![':']);
                assert(names_view(r@) =~= rs2.push(seq![':']));
                assert(names_view(r@) + tail =~= rs + ((flush(cv) + seq![seq![':']]) + tail));
            }
        } else {
            push_char(&mut cur, c);
            proof {
                assert(cur@ == cv.push(s@[i as int]));
            }
        }
        i += 1;
    }
    let ghost rs = names_view(r@);
    let ghost cv = cur@;
    if !cur.as_str().is_empty() {
        r.push(cur);
        proof {
            assert(names_view(r@) =~= rs + seq![cv]);
        }
    }
    proof {
        assert(names_view(r@) =~= rs + flush(cv));
        assert(names_view(r@) =~= tokens_of(s@));
    }
    r
}

/// Collect the words from position `start` on as declared method names, or
/// nothing when one of them repeats.
fn collect_methods(input: &Vec<&str>, start: usize) -> (r: Option<Vec<Function>>)
    requires
        start as int <= input@.len(),
    ensures
        ({
            let ms = strs_view(input@).skip(start as int);
            match r {
                None => has_duplicate(ms),
                Some(fs) => !has_duplicate(ms) && names_view(fs@) == ms,
            }
        }),
{
    let ghost ms = strs_view(input@).skip(start as int);
    let mut functions: Vec<Function> = Vec::new();
    let mut i: usize = start;
    while i < input.len()
        invariant
            start <= i <= input@.len(),
            functions@.len() == i - start,
            names_view(functions@) == strs_view(input@).subrange(start as int, i as int),
        decreases input@.len() - i,
    {
        functions.push(input[i].to_owned());
        proof {
            assert(names_view(functions@) =~= strs_view(input@).subrange(start as int, i + 1));
        }
        i += 1;
    }
    proof {
        assert(names_view(functions@) =~= ms);
    }
    let mut a: usize = 1;
    while a < functions.len()
        invariant
            1 <= a,
            start as int <= input@.len(),
            ms == strs_view(input@).skip(start as int),
            functions@.len() == ms.len(),
            names_view(functions@) == ms,
            forall|x: int, y: int| 0 <= x < y < a && y < ms.len() ==> ms[x] != ms[y],
        decreases functions@.len() - a,
    {
        let mut b: usize = 0;
        while b < a
            invariant
                b <= a,
                a < functions@.len(),
                start as int <= input@.len(),
                ms == strs_view(input@).skip(start as int),
                functions@.len() == ms.len(),
                names_view(functions@) == ms,
                forall|y: int| 0 <= y < b ==> ms[y] != ms[a as int],
            decreases a - b,
        {
            if str_eq(functions[b].as_str(), functions[a].as_str()) {
                proof {
                    assert(ms[b as int] == ms[a as int]);
                    assert(has_duplicate(ms));
                }
                return None;
            }
            b += 1;
        }
        a += 1;
    }
    proof {
        assert(!has_duplicate(ms));
    }
    Some(functions)
}

/// The prompt loop's state: the registry it drives, and whether another
/// iteration should run.
pub struct Program {
    manager: ClassManager,
    running: bool,
}

impl Program {
    /// The registry as this program sees it.
    pub closed spec fn registry(&self) -> RegistryView {
        self.manager@
    }

    /// Whether the program still accepts commands.
    pub closed spec fn active(&self) -> bool {
        self.running
    }

    /// Create a new program ready to run, with an empty registry.
    pub fn new() -> (r: Program)
        ensures
            r.registry() == RegistryView::empty(),
            registry_ok(r.registry()),
            r.active(),
    {
        Program { manager: ClassManager::new(), running: true }
    }

    /// Tells if this program should run a next iteration.
    pub fn should_run(&self) -> (r: bool)
        ensures
            r == self.active(),
    {
        self.running
    }

    /// Mark this program to exit.
    pub fn exit(&mut self)
        ensures
            !final(self).active(),
            final(self).registry() == old(self).registry(),
    {
        self.running = false;
    }

    /// Parse one command line as an action: the first word, lowered, must be
    /// `describir`, `class` or `salir`, and the remaining words are handed to
    /// that action's own parser.
    pub fn parse(&self, input: String) -> (r: Result<Action, ProgramError>)
        ensures
            parse_post(input@, r),
    {
        let tokens = tokenize(input.as_str());
        if tokens.len() == 0 {
            return Err(ProgramError::NoInput);
        }
        let action = lower_str(tokens[0].as_str());
        let mut rest: Vec<&str> = Vec::new();
        let mut i: usize = 1;
        while i < tokens.len()
            invariant
                1 <= i <= tokens@.len(),
                rest@.len() == i - 1,
                strs_view(rest@) == names_view(tokens@).subrange(1, i as int),
            decreases tokens@.len() - i,
        {
            let t = tokens[i].as_str();
            rest.push(t);
            proof {
                assert(strs_view(rest@) =~= names_view(tokens@).subrange(1, i + 1));
            }
            i += 1;
        }
        proof {
            assert(strs_view(rest@) =~= tokens_of(input@).drop_first());
        }
        if str_eq(action.as_str(), "describir") {
            self.parse_show(rest)
        } else if str_eq(action.as_str(), "class") {
            self.parse_class(rest)
        } else if str_eq(action.as_str(), "salir") {
            Ok(Action::Exit)
        } else {
            Err(ProgramError::InvalidAction(action))
        }
    }

    /// Parse the arguments of a `class` line: the class name, an optional
    /// `: parent`, and the methods declared for it, which may not repeat.
    pub fn parse_class(&self, input: Vec<&str>) -> (r: Result<Action, ProgramError>)
        ensures
            class_parse_post(strs_view(input@), r),
    {
        if input.len() == 0 {
            return Err(ProgramError::NotEnoughArgs);
        }
        let class: ClassName = input[0].to_owned();
        let colon = input.len() >= 2 && str_eq(input[1], ":");
        proof {
            reveal_strlit(":");
            assert(":"@ =~= seq![':']);
        }
        if colon {
            if input.len() == 2 {
                return Err(ProgramError::NotEnoughArgs);
            }
            let parent: ClassName = input[2].to_owned();
            match collect_methods(&input, 3) {
                None => Err(ProgramError::InvalidArguments),
                Some(functions) => Ok(Action::Create(class, Some(parent), functions)),
            }
        } else {
            match collect_methods(&input, 1) {
                None => Err(ProgramError::InvalidArguments),
                Some(functions) => Ok(Action::Create(class, None, functions)),
            }
        }
    }

    /// Parse the arguments of a `describir` line: exactly one class name.
    pub fn parse_show(&self, input: Vec<&str>) -> (r: Result<Action, ProgramError>)
        ensures
            show_parse_post(strs_view(input@), r),
    {
        if input.len() == 0 {
            return Err(ProgramError::NotEnoughArgs);
        }
        if input.len() > 1 {
            return Err(ProgramError::InvalidArguments);
        }
        Ok(Action::Show(input[0].to_owned()))
    }

    /// Apply one parsed action to the program: `Exit` stops the loop,
    /// `Show` reads the registry and hands back the description text, and
    /// `Create` registers a class. The description or the registry error is
    /// returned for the caller to print.
    pub fn dispatch(&mut self, act: Action) -> (r: Result<Option<String>, ClassError>)
        ensures
            ({
                let reg = old(self).registry();
                let now = *final(self);
                match act {
                    Action::Exit => {
                        &&& !now.active()
                        &&& now.registry() == reg
                        &&& r matches Ok(o) && o is None
                    },
                    Action::Show(c) => {
                        &&& now.active() == old(self).active()
                        &&& now.registry() == reg
                        &&& !reg.contains_key(c@) ==> (r matches Err(ClassError::NotDefined(n))
                            && n@ == c@)
                        &&& reg.contains_key(c@) ==> (r matches Ok(o) && o matches Some(s) && s@
                            == render(reg[c@]))
                    },
                    Action::Create(c, p, ms) => {
                        &&& now.active() == old(self).active()
                        &&& registry_ok(now.registry())
                        &&& match register_outcome(reg, c@, opt_name(p)) {
                            Outcome::Redefinition => now.registry() == reg && (r matches Err(
                                ClassError::ClassRedefinition(n),
                            ) && n@ == c@),
                            Outcome::SelfParent => now.registry() == reg && (r matches Err(
                                ClassError::CircularDependency,
                            )),
                            Outcome::MissingParent => now.registry() == reg && (r matches Err(
                                ClassError::NotDefined(n),
                            ) && Some(n@) == opt_name(p)),
                            Outcome::Accepted => (r matches Ok(o) && o is None) && now.registry()
                                == register_effect(reg, c@, opt_name(p), names_view(ms@)),
                        }
                    },
                }
            }),
    {
        match act {
            Action::Exit => {
                self.exit();
                Ok(None)
            },
            Action::Show(c) => match self.manager.show(c) {
                Ok(d) => Ok(Some(d)),
                Err(e) => Err(e),
            },
            Action::Create(c, p, ms) => match self.manager.add(c, p, ms) {
                Ok(()) => Ok(None),
                Err(e) => Err(e),
            },
        }
    }
}

impl ProgramError {
    /// Render this error as readable text.
    pub fn display(&self) -> (r: String)
        ensures
            r@ == program_error_text(*self),
    {
        match self {
            ProgramError::InvalidAction(s) => {
                let mut t = String::from_str("InvalidAction(\"");
                t.append(s.as_str());
                t.append("\")");
                proof {
                    assert(t@ =~= program_error_text(*self));
                }
                t
            },
            ProgramError::NoInput => String::from_str("NoInput"),
            ProgramError::NotEnoughArgs => String::from_str("NotEnoughArgs"),
            ProgramError::InvalidArguments => String::from_str("InvalidArguments"),
        }
    }
}

} // verus!
