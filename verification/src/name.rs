//! The grammar of tube names: a letter or one of `+ / ; . $ _ ( )` first,
//! then any of those or a hyphen.

use vstd::prelude::*;
use vstd::string::{StrSliceExecFns, StringExecFns};

verus! {

/// A name that the grammar refuses.
#[derive(Debug)]
pub enum Error {
    InvalidName(String),
}

impl Error {
    /// What the message says before the name.
    pub open spec fn before_name() -> Seq<char> {
        "Invalid name '"@
    }

    /// What the message says after the name.
    pub open spec fn after_name() -> Seq<char> {
        "'. Names should be ASCII strings and  `[A-Za-z0-9+/;?$_()][A-Za-z0-9-+/;?$_()]*`"@
    }

    /// The message: the refused name between two fixed texts.
    pub open spec fn describe(self) -> Seq<char> {
        match self {
            Error::InvalidName(name) => Self::before_name() + name@ + Self::after_name(),
        }
    }

    /// The message as a text.
    pub fn message(&self) -> (text: String)
        ensures
            text@ == self.describe(),
    {
        match self {
            Error::InvalidName(name) => {
                let mut text = "Invalid name '".to_owned();
                text.append(name.as_str());
                text.append(
                    "'. Names should be ASCII strings and  `[A-Za-z0-9+/;?$_()][A-Za-z0-9-+/;?$_()]*`",
                );
                text
            },
        }
    }
}

/// An ASCII letter.
pub open spec fn alpha(c: char) -> bool {
    ('A' <= c && c <= 'Z') || ('a' <= c && c <= 'z')
}

/// One of the signs that may open a name.
pub open spec fn special_start(c: char) -> bool {
    c == '+' || c == '/' || c == ';' || c == '.' || c == '$' || c == '_' || c == '(' || c == ')'
}

/// A character that may open a name.
pub open spec fn name_start(c: char) -> bool {
    alpha(c) || special_start(c)
}

/// A character that may stand in a name.
pub open spec fn name_char(c: char) -> bool {
    name_start(c) || c == '-'
}

/// The characters form a name: at least one, the first a letter or an
/// opening sign, the others letters, opening signs or hyphens.
pub open spec fn valid_name(name: Seq<char>) -> bool {
    &&& name.len() > 0
    &&& name_start(name[0])
    &&& forall|i: int| 1 <= i < name.len() ==> name_char(#[trigger] name[i])
}

/// Tells whether `c` is an ASCII letter.
#[verifier::when_used_as_spec(alpha)]
pub fn is_alpha(c: char) -> (r: bool)
    ensures
        r == alpha(c),
{
    ('A' <= c && c <= 'Z') || ('a' <= c && c <= 'z')
}

/// Tells whether `c` is one of the signs that may open a name.
#[verifier::when_used_as_spec(special_start)]
pub fn is_special_start(c: char) -> (r: bool)
    ensures
        r == special_start(c),
{
    c == '+' || c == '/' || c == ';' || c == '.' || c == '$' || c == '_' || c == '(' || c == ')'
}

/// Tells whether `c` may open a name.
#[verifier::when_used_as_spec(name_start)]
pub fn is_name_start(c: char) -> (r: bool)
    ensures
        r == name_start(c),
{
    is_alpha(c) || is_special_start(c)
}

/// Tells whether `c` may stand in a name.
#[verifier::when_used_as_spec(name_char)]
pub fn is_name_char(c: char) -> (r: bool)
    ensures
        r == name_char(c),
{
    is_name_start(c) || c == '-'
}

/// Tells whether `name` is a name.
pub fn is_name(name: &str) -> (r: bool)
    ensures
        r == valid_name(name@),
{
    let len = name.unicode_len();
    if len == 0 {
        return false;
    }
    if !is_name_start(name.get_char(0)) {
        return false;
    }
    let mut i: usize = 1;
    while i < len
        invariant
            1 <= i <= len,
            len == name@.len(),
            forall|j: int| 1 <= j < i ==> name_char(#[trigger] name@[j]),
        decreases len - i,
    {
        if !is_name_char(name.get_char(i)) {
            return false;
        }
        i += 1;
    }
    true
}

/// Accepts a name, or refuses it with a copy of it.
pub fn validate_name(name: &str) -> (r: Result<(), Error>)
    ensures
        r is Ok <==> valid_name(name@),
        r matches Err(Error::InvalidName(refused)) ==> refused@ == name@,
{
    if is_name(name) {
        return Ok(());
    }
    Err(Error::InvalidName(name.to_owned()))
}

} // verus!
