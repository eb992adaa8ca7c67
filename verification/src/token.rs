//! Argument tokens: text where the bytes decode, raw bytes where they do not.

use crate::text::{lossy_string, lossy_text, owned, same_text};
use vstd::prelude::*;
use vstd::string::*;

verus! {

/// One element of an argument vector, or a value bound from it.
///
/// A token that is valid text takes part in option and subcommand
/// recognition. A token that is not can only be bound as a value, and is
/// carried through unchanged.
#[derive(Clone, Debug, PartialEq, Eq)]
pub enum Token {
    Text(String),
    Raw(Vec<u8>),
}

/// The mathematical value of a [`Token`].
pub enum TokenView {
    Text(Seq<char>),
    Raw(Seq<u8>),
}

impl TokenView {
    /// The text shown for this token in diagnostics.
    pub open spec fn lossy(self) -> Seq<char> {
        match self {
            TokenView::Text(s) => s,
            TokenView::Raw(b) => lossy_text(b),
        }
    }
}

impl View for Token {
    type V = TokenView;

    open spec fn view(&self) -> TokenView {
        match self {
            Token::Text(s) => TokenView::Text(s@),
            Token::Raw(b) => TokenView::Raw(b@),
        }
    }
}

/// The values that a list of tokens stands for.
pub open spec fn token_views(v: Seq<Token>) -> Seq<TokenView> {
    v.map_values(|t: Token| t@)
}

fn same_bytes(a: &Vec<u8>, b: &Vec<u8>) -> (r: bool)
    ensures
        r == (a@ == b@),
{
    if a.len() != b.len() {
        return false;
    }
    let mut i: usize = 0;
    while i < a.len()
        invariant
            i <= a.len(),
            a.len() == b.len(),
            forall|k: int| 0 <= k < i ==> a@[k] == b@[k],
        decreases a.len() - i,
    {
        if a[i] != b[i] {
            return false;
        }
        i += 1;
    }
    assert(a@ =~= b@);
    true
}

impl Token {
    /// A text token.
    pub fn text(s: &str) -> (t: Token)
        ensures
            t@ == TokenView::Text(s@),
    {
        Token::Text(owned(s))
    }

    /// A token of bytes that do not decode as text.
    pub fn raw(bytes: Vec<u8>) -> (t: Token)
        ensures
            t@ == TokenView::Raw(bytes@),
    {
        Token::Raw(bytes)
    }

    /// The text of this token, if it is text.
    pub fn as_text(&self) -> (r: Option<&str>)
        ensures
            match r {
                Some(s) => self@ == TokenView::Text(s@),
                None => self@ is Raw,
            },
    {
        match self {
            Token::Text(s) => Some(s.as_str()),
            Token::Raw(_) => None,
        }
    }

    /// A copy of this token.
    pub fn duplicate(&self) -> (t: Token)
        ensures
            t@ == self@,
    {
        match self {
            Token::Text(s) => Token::Text(s.clone()),
            Token::Raw(b) => {
                let mut c: Vec<u8> = Vec::new();
                let mut i: usize = 0;
                while i < b.len()
                    invariant
                        i <= b.len(),
                        c@ =~= b@.subrange(0, i as int),
                    decreases b.len() - i,
                {
                    c.push(b[i]);
                    i += 1;
                }
                assert(c@ =~= b@);
                Token::Raw(c)
            },
        }
    }

    /// Whether two tokens hold the same value.
    pub fn same(&self, other: &Token) -> (r: bool)
        ensures
            r == (self@ == other@),
    {
        match (self, other) {
            (Token::Text(a), Token::Text(b)) => same_text(a.as_str(), b.as_str()),
            (Token::Raw(a), Token::Raw(b)) => same_bytes(a, b),
            _ => false,
        }
    }

    /// Whether the token is empty.
    pub fn is_empty(&self) -> (r: bool)
        ensures
            r == match self@ {
                TokenView::Text(s) => s.len() == 0,
                TokenView::Raw(b) => b.len() == 0,
            },
    {
        match self {
            Token::Text(s) => s.as_str().is_empty(),
            Token::Raw(b) => b.len() == 0,
        }
    }

    /// The token as text for diagnostics; bytes that do not decode are
    /// replaced as `String::from_utf8_lossy` replaces them.
    pub fn lossy(&self) -> (s: String)
        ensures
            s@ == self@.lossy(),
    {
        match self {
            Token::Text(s) => s.clone(),
            Token::Raw(b) => lossy_string(b),
        }
    }
}

} // verus!
