//! The error type of the engine and the text shown for each error.

use crate::text::{owned, texts};
use vstd::prelude::*;
use vstd::string::*;

verus! {

/// A typed error of the calling program, to be carried through the engine.
pub trait UserError {
    /// A name for the kind of error, by which the caller recognises it again.
    fn kind(&self) -> String;

    /// The message to show for this error.
    fn describe(&self) -> String;
}

/// What the engine keeps of a typed user error.
#[derive(Clone, Debug, PartialEq, Eq)]
pub struct UserFault {
    pub kind: String,
    pub message: String,
}

/// Top-level error type.
#[derive(Debug)]
pub enum Error {
    /// Invalid input reported as a message, by the engine or by a callback.
    User(String),
    /// A typed error raised by a callback or validator.
    UserAny(UserFault),
    /// Internal or structural error.
    Parse(String),
    /// Early exit with a code (help, version, author) and an optional message.
    ExitMsg { code: i32, message: Option<String> },
    /// An option that the current command does not declare.
    UnknownOption { token: String, suggestions: Vec<String> },
    /// A bare token where a subcommand was expected.
    UnknownCommand { token: String, suggestions: Vec<String> },
    /// A value-taking option without its value.
    MissingValue { opt: String },
    /// A token that no option, subcommand or positional slot accepts.
    UnexpectedPositional { token: String },
}

/// The mathematical value of an [`Error`].
pub enum ErrorView {
    User(Seq<char>),
    UserAny { kind: Seq<char>, text: Seq<char> },
    Parse(Seq<char>),
    ExitMsg { code: int, message: Option<Seq<char>> },
    UnknownOption { token: Seq<char>, suggestions: Seq<Seq<char>> },
    UnknownCommand { token: Seq<char>, suggestions: Seq<Seq<char>> },
    MissingValue { opt: Seq<char> },
    UnexpectedPositional { token: Seq<char> },
}

impl View for Error {
    type V = ErrorView;

    open spec fn view(&self) -> ErrorView {
        match self {
            Error::User(s) => ErrorView::User(s@),
            Error::UserAny(f) => ErrorView::UserAny { kind: f.kind@, text: f.message@ },
            Error::Parse(s) => ErrorView::Parse(s@),
            Error::ExitMsg { code, message } => ErrorView::ExitMsg {
                code: *code as int,
                message: match message {
                    Some(m) => Some(m@),
                    None => None,
                },
            },
            Error::UnknownOption { token, suggestions } => ErrorView::UnknownOption {
                token: token@,
                suggestions: texts(suggestions@),
            },
            Error::UnknownCommand { token, suggestions } => ErrorView::UnknownCommand {
                token: token@,
                suggestions: texts(suggestions@),
            },
            Error::MissingValue { opt } => ErrorView::MissingValue { opt: opt@ },
            Error::UnexpectedPositional { token } => ErrorView::UnexpectedPositional {
                token: token@,
            },
        }
    }
}

/// The decimal digit for `d`.
pub open spec fn digit_of(d: int) -> char {
    (48 + d) as u8 as char
}

/// Decimal notation of a natural number, without leading zeros.
pub open spec fn decimal_nat(n: nat) -> Seq<char>
    decreases n,
{
    if n < 10 {
        seq![digit_of(n as int)]
    } else {
        decimal_nat(n / 10).push(digit_of((n % 10) as int))
    }
}

/// Decimal notation of an integer.
pub open spec fn decimal(n: int) -> Seq<char> {
    if n < 0 {
        seq!['-'] + decimal_nat((-n) as nat)
    } else {
        decimal_nat(n as nat)
    }
}

/// An item between single quotes.
pub open spec fn quoted(s: Seq<char>) -> Seq<char> {
    "'"@ + s + "'"@
}

/// The first `n` of three or more items as `'a', 'b', or 'c'`.
pub open spec fn listed(items: Seq<Seq<char>>, n: int) -> Seq<char>
    decreases n,
{
    if n <= 0 {
        Seq::empty()
    } else if n == 1 {
        quoted(items[0])
    } else {
        listed(items, n - 1) + (if n == items.len() {
            ", or "@
        } else {
            ", "@
        }) + quoted(items[n - 1])
    }
}

/// The alternatives offered in a diagnostic: `'a'`, `'a' or 'b'`, or
/// `'a', 'b', or 'c'`.
pub open spec fn alternates(items: Seq<Seq<char>>) -> Seq<char> {
    if items.len() == 0 {
        Seq::empty()
    } else if items.len() == 1 {
        quoted(items[0])
    } else if items.len() == 2 {
        quoted(items[0]) + " or "@ + quoted(items[1])
    } else {
        listed(items, items.len() as int)
    }
}

/// The closing hint of a diagnostic that has suggestions.
pub open spec fn hint(suggestions: Seq<Seq<char>>) -> Seq<char> {
    if suggestions.len() == 0 {
        Seq::empty()
    } else {
        ". Did you mean "@ + alternates(suggestions) + "?"@
    }
}

/// The text shown for an error.
pub open spec fn message_text(e: ErrorView) -> Seq<char> {
    match e {
        ErrorView::User(s) => s,
        ErrorView::UserAny { kind, text } => text,
        ErrorView::Parse(s) => s,
        ErrorView::ExitMsg { code, message } => (match message {
            Some(m) => m,
            None => Seq::empty(),
        }) + " (exit "@ + decimal(code) + ")"@,
        ErrorView::UnknownOption { token, suggestions } => "unknown option: '"@ + token + "'"@
            + hint(suggestions),
        ErrorView::UnknownCommand { token, suggestions } => "unknown command: '"@ + token + "'"@
            + hint(suggestions),
        ErrorView::MissingValue { opt } => "missing value for option: '"@ + opt + "'"@,
        ErrorView::UnexpectedPositional { token } => "unexpected positional: '"@ + token + "'"@,
    }
}

fn digit_char(d: u32) -> (c: char)
    requires
        d < 10,
    ensures
        c == digit_of(d as int),
{
    let b: u8 = 48u8 + (d as u8);
    b as char
}

fn push_decimal(s: &mut String, n: u32)
    ensures
        final(s)@ == old(s)@ + decimal_nat(n as nat),
    decreases n,
{
    if n >= 10 {
        push_decimal(s, n / 10);
    }
    s.push(digit_char(n % 10));
    assert(final(s)@ =~= old(s)@ + decimal_nat(n as nat));
}

/// Append the decimal notation of `n`.
fn push_int(s: &mut String, n: i32)
    ensures
        final(s)@ == old(s)@ + decimal(n as int),
{
    if n < 0 {
        s.push('-');
        let m: u32 = (-(n as i64)) as u32;
        push_decimal(s, m);
        assert(final(s)@ =~= old(s)@ + decimal(n as int));
    } else {
        push_decimal(s, n as u32);
    }
}

fn push_quoted(s: &mut String, item: &str)
    ensures
        final(s)@ == old(s)@ + quoted(item@),
{
    s.append("'");
    s.append(item);
    s.append("'");
    assert(final(s)@ =~= old(s)@ + quoted(item@));
}

/// The alternatives of a diagnostic, joined for reading.
pub fn format_alternates(items: &Vec<String>) -> (s: String)
    ensures
        s@ == alternates(texts(items@)),
{
    let ghost t = texts(items@);
    let mut s = String::new();
    if items.len() == 0 {
        s
    } else if items.len() == 1 {
        push_quoted(&mut s, items[0].as_str());
        assert(s@ =~= quoted(t[0]));
        s
    } else if items.len() == 2 {
        push_quoted(&mut s, items[0].as_str());
        s.append(" or ");
        push_quoted(&mut s, items[1].as_str());
        assert(s@ =~= quoted(t[0]) + " or "@ + quoted(t[1]));
        s
    } else {
        let mut i: usize = 0;
        while i < items.len()
            invariant
                i <= items.len(),
                items.len() > 2,
                t == texts(items@),
                s@ == listed(t, i as int),
            decreases items.len() - i,
        {
            if i > 0 {
                if i + 1 == items.len() {
                    s.append(", or ");
                } else {
                    s.append(", ");
                }
            }
            push_quoted(&mut s, items[i].as_str());
            proof {
                if i == 0 {
                    assert(s@ =~= quoted(t[0]));
                }
            }
            i += 1;
        }
        s
    }
}

fn push_hint(s: &mut String, suggestions: &Vec<String>)
    ensures
        final(s)@ == old(s)@ + hint(texts(suggestions@)),
{
    if suggestions.len() > 0 {
        let alt = format_alternates(suggestions);
        s.append(". Did you mean ");
        s.append(alt.as_str());
        s.append("?");
        assert(final(s)@ =~= old(s)@ + hint(texts(suggestions@)));
    } else {
        assert(final(s)@ =~= old(s)@ + hint(texts(suggestions@)));
    }
}

impl Error {
    /// An error that carries a typed error of the calling program: the
    /// kind and the message that the error gives of itself.
    pub fn user<E: UserError>(e: &E) -> (r: Error)
        ensures
            r matches Error::UserAny(f) && call_ensures(E::kind, (e,), f.kind) && call_ensures(
                E::describe,
                (e,),
                f.message,
            ),
    {
        Error::UserAny(UserFault { kind: e.kind(), message: e.describe() })
    }

    /// The text shown for this error.
    pub fn message(&self) -> (s: String)
        ensures
            s@ == message_text(self@),
    {
        match self {
            Error::User(m) => m.clone(),
            Error::UserAny(f) => f.message.clone(),
            Error::Parse(m) => m.clone(),
            Error::ExitMsg { code, message } => {
                let mut s = String::new();
                if let Some(m) = message {
                    s.append(m.as_str());
                }
                s.append(" (exit ");
                push_int(&mut s, *code);
                s.append(")");
                assert(s@ =~= message_text(self@));
                s
            },
            Error::UnknownOption { token, suggestions } => {
                let mut s = owned("unknown option: '");
                s.append(token.as_str());
                s.append("'");
                push_hint(&mut s, suggestions);
                s
            },
            Error::UnknownCommand { token, suggestions } => {
                let mut s = owned("unknown command: '");
                s.append(token.as_str());
                s.append("'");
                push_hint(&mut s, suggestions);
                s
            },
            Error::MissingValue { opt } => {
                let mut s = owned("missing value for option: '");
                s.append(opt.as_str());
                s.append("'");
                s
            },
            Error::UnexpectedPositional { token } => {
                let mut s = owned("unexpected positional: '");
                s.append(token.as_str());
                s.append("'");
                s
            },
        }
    }
}

} // verus!
