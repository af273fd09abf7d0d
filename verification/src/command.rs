//! The command bar: what a typed command asks for.
use crate::cli::below;
use crate::render::opt_str;
use crate::text::{char_is_space, chars_of, is_space, same_text, string_of, trim, trim_end, trimmed};
use vstd::prelude::*;

verus! {

/// Work on a file that a command asks for. `T` is a path as it was typed.
#[derive(Clone, Debug)]
pub enum Command<T> {
    /// Record the retained records and all that follow.
    Save(T),
    /// Show a saved session in place of the live view.
    Open(T),
}

impl View for Command<String> {
    type V = Command<Seq<char>>;

    open spec fn view(&self) -> Command<Seq<char>> {
        match *self {
            Command::Save(p) => Command::Save(p@),
            Command::Open(p) => Command::Open(p@),
        }
    }
}

/// `s` without colons and slashes at its front.
pub open spec fn without_marks(s: Seq<char>) -> Seq<char>
    decreases s.len(),
{
    if s.len() > 0 && (s[0] == ':' || s[0] == '/') {
        without_marks(s.skip(1))
    } else {
        s
    }
}

/// The command line without the marks it may begin with.
pub open spec fn command_input(text: Seq<char>) -> Seq<char> {
    trim(without_marks(trim(text)))
}

/// How many characters stand before the first white space.
pub open spec fn word_len(s: Seq<char>) -> int
    decreases s.len(),
{
    if s.len() == 0 || is_space(s[0]) {
        0
    } else {
        1 + word_len(s.skip(1))
    }
}

/// The name of a command: the first word.
pub open spec fn command_word(text: Seq<char>) -> Seq<char> {
    command_input(text).take(word_len(command_input(text)))
}

/// The argument of a command: what stands behind the first word, trimmed.
pub open spec fn command_argument(text: Seq<char>) -> Seq<char> {
    trim(command_input(text).skip(word_len(command_input(text))))
}

/// What a command line asks for, or what is wrong with it.
pub open spec fn command_of(text: Seq<char>) -> Result<Command<Seq<char>>, Seq<char>> {
    let name = command_word(text);
    let argument = command_argument(text);
    if name == "w"@ || name == "write"@ || name == "save"@ {
        if argument.len() == 0 {
            Err("usage: :save FILE"@)
        } else {
            Ok(Command::Save(argument))
        }
    } else if name == "o"@ || name == "open"@ {
        if argument.len() == 0 {
            Err("usage: :open FILE"@)
        } else {
            Ok(Command::Open(argument))
        }
    } else if name.len() == 0 {
        Err("command is empty"@)
    } else {
        Err("unknown command: "@ + name)
    }
}

fn strip_marks(s: &str) -> (r: String)
    ensures
        r@ == without_marks(s@),
{
    let v = chars_of(s);
    let n: usize = v.len();
    let mut i: usize = 0;
    assert(v@.skip(0) =~= v@);
    while i < n && (v[i] == ':' || v[i] == '/')
        invariant
            i <= n == v@.len(),
            without_marks(v@.skip(i as int)) == without_marks(v@),
        decreases n - i,
    {
        assert(v@.skip(i as int).skip(1) =~= v@.skip(i + 1));
        i = i + 1;
    }
    assert(v@.skip(i as int) =~= v@.subrange(i as int, n as int));
    string_of(&v, i, n)
}

fn first_word(v: &Vec<char>) -> (i: usize)
    ensures
        i == word_len(v@),
        i <= v@.len(),
{
    let n: usize = v.len();
    let mut i: usize = 0;
    assert(v@.skip(0) =~= v@);
    while i < n && !char_is_space(v[i])
        invariant
            i <= n == v@.len(),
            word_len(v@) == i + word_len(v@.skip(i as int)),
        decreases n - i,
    {
        assert(v@.skip(i as int).skip(1) =~= v@.skip(i + 1));
        i = i + 1;
    }
    i
}

/// Reads a command line: `:save FILE` and `:open FILE`, or a short form of either.
pub fn parse_command(text: &str) -> (r: Result<Command<String>, String>)
    ensures
        match r {
            Ok(c) => command_of(text@) == Ok::<Command<Seq<char>>, Seq<char>>(c@),
            Err(e) => command_of(text@) == Err::<Command<Seq<char>>, Seq<char>>(e@),
        },
{
    proof {
        reveal_strlit("w");
        reveal_strlit("write");
        reveal_strlit("save");
        reveal_strlit("o");
        reveal_strlit("open");
    }
    let input = trimmed(strip_marks(trimmed(text).as_str()).as_str());
    let v = chars_of(input.as_str());
    let at: usize = first_word(&v);
    let name = string_of(&v, 0, at);
    let argument = trimmed(string_of(&v, at, v.len()).as_str());
    assert(v@.subrange(0, at as int) =~= v@.take(at as int));
    assert(v@.subrange(at as int, v@.len() as int) =~= v@.skip(at as int));
    let word = name.as_str();
    if same_text(word, "w") || same_text(word, "write") || same_text(word, "save") {
        if argument.as_str().is_empty() {
            Err("usage: :save FILE".to_owned())
        } else {
            Ok(Command::Save(argument))
        }
    } else if same_text(word, "o") || same_text(word, "open") {
        if argument.as_str().is_empty() {
            Err("usage: :open FILE".to_owned())
        } else {
            Ok(Command::Open(argument))
        }
    } else if word.is_empty() {
        Err("command is empty".to_owned())
    } else {
        let mut e = String::new();
        e.append("unknown command: ");
        e.append(word);
        assert(e@ =~= "unknown command: "@ + name@);
        Err(e)
    }
}

/// A typed path with a leading `~/`, or a bare `~`, turned into the home directory
/// where there is one. An absolute path behind the mark stands for itself.
pub open spec fn expanded(input: Seq<char>, home: Option<Seq<char>>) -> Seq<char> {
    match home {
        Some(h) => if input.len() >= 2 && input[0] == '~' && input[1] == '/' {
            let rest = input.skip(2);
            if rest.len() > 0 && rest[0] == '/' {
                rest
            } else {
                below(h, rest)
            }
        } else if input == "~"@ {
            h
        } else {
            input
        },
        None => input,
    }
}

/// Expands a leading `~/` (or a bare `~`) to the home directory, so that commands take
/// the paths that users naturally type.
pub fn expand_tilde(input: &str, home: Option<&str>) -> (s: String)
    ensures
        s@ == expanded(input@, opt_str(home)),
{
    match home {
        Some(h) => {
            let v = chars_of(input);
            let n: usize = v.len();
            if n >= 2 && v[0] == '~' && v[1] == '/' {
                let rest = string_of(&v, 2, n);
                assert(v@.subrange(2, n as int) =~= v@.skip(2));
                if n > 2 && v[2] == '/' {
                    rest
                } else {
                    crate::cli::join_below(h, rest.as_str())
                }
            } else if same_text(input, "~") {
                h.to_owned()
            } else {
                input.to_owned()
            }
        },
        None => input.to_owned(),
    }
}

proof fn trim_end_keeps_the_front(mark: char, text: Seq<char>)
    requires
        !is_space(mark),
    ensures
        trim_end(seq![mark] + text) == seq![mark] + trim_end(text),
    decreases text.len(),
{
    let whole = seq![mark] + text;
    if text.len() > 0 && is_space(text.last()) {
        assert(whole.last() == text.last());
        assert(whole.drop_last() =~= seq![mark] + text.drop_last());
        trim_end_keeps_the_front(mark, text.drop_last());
    } else if text.len() > 0 {
        assert(whole.last() == text.last());
    } else {
        assert(whole.last() == mark);
    }
}

/// A command means the same with a colon or a slash before it.
pub proof fn marks_change_nothing(text: Seq<char>, mark: char)
    requires
        mark == ':' || mark == '/',
        text.len() > 0 ==> !is_space(text[0]),
    ensures
        command_of(seq![mark] + text) == command_of(text),
{
    let whole = seq![mark] + text;
    trim_end_keeps_the_front(mark, text);
    assert(whole[0] == mark);
    assert(trim(whole) == seq![mark] + trim_end(text));
    assert((seq![mark] + trim_end(text)).skip(1) =~= trim_end(text));
}

} // verus!
