//! The faults that stop a replay.

use vstd::prelude::*;
use vstd::string::StringExecFns;

verus! {

/// The token that was being scanned when an unexpected character turned up.
#[derive(Debug, Clone, Copy, PartialEq, Eq, Structural)]
pub enum Context {
    /// The key of a record, before its `=`.
    Key,
    /// The value of a record, after its `=`.
    Value,
    /// The key that follows `:del `.
    DeleteKey,
}

impl Context {
    /// What a message calls the token.
    pub open spec fn label(self) -> Seq<char> {
        match self {
            Context::Key => "key value"@,
            Context::Value => "value"@,
            Context::DeleteKey => "delete key"@,
        }
    }

    /// What a message calls the token.
    pub fn name(self) -> (name: &'static str)
        ensures
            name@ == self.label(),
    {
        match self {
            Context::Key => "key value",
            Context::Value => "value",
            Context::DeleteKey => "delete key",
        }
    }
}

/// Why a replay stopped.
#[derive(Debug, PartialEq, Eq)]
pub enum ParseError {
    /// The source of lines could not produce the next line; the text says why.
    IoFailure(String),
    /// A line that starts with `:` names a directive other than `del`.
    UnrecognizedControl(String),
    /// A character that the token being scanned cannot hold.
    InvalidCharacter { context: Context, found: char },
    /// A record whose key runs to the end of the line without `=`.
    UnterminatedKey,
}

/// The mathematical value of a [`ParseError`]: its texts as sequences of
/// characters.
pub enum ParseFault {
    IoFailure(Seq<char>),
    UnrecognizedControl(Seq<char>),
    InvalidCharacter { context: Context, found: char },
    UnterminatedKey,
}

impl ParseFault {
    /// The fault in words.
    pub open spec fn message(self) -> Seq<char> {
        match self {
            ParseFault::IoFailure(reason) => reason,
            ParseFault::UnrecognizedControl(name) => "unrecognized control "@ + name,
            ParseFault::InvalidCharacter { context, found } => "unexpected character '"@.push(found)
                + "' in "@ + context.label(),
            ParseFault::UnterminatedKey => "key should be followed by '=' and a value"@,
        }
    }
}

impl ParseError {
    /// The fault in words, for a reader of the log.
    pub fn message(&self) -> (text: String)
        ensures
            text@ == self@.message(),
    {
        match self {
            ParseError::IoFailure(reason) => reason.clone(),
            ParseError::UnrecognizedControl(name) => {
                let mut text = "unrecognized control ".to_owned();
                text.append(name.as_str());
                text
            },
            ParseError::InvalidCharacter { context, found } => {
                let mut text = "unexpected character '".to_owned();
                text.push(*found);
                text.append("' in ");
                text.append(context.name());
                text
            },
            ParseError::UnterminatedKey => "key should be followed by '=' and a value".to_owned(),
        }
    }
}

impl Clone for ParseError {
    fn clone(&self) -> (copy: Self)
        ensures
            copy == *self,
    {
        match self {
            ParseError::IoFailure(reason) => ParseError::IoFailure(reason.clone()),
            ParseError::UnrecognizedControl(name) => ParseError::UnrecognizedControl(name.clone()),
            ParseError::InvalidCharacter { context, found } => ParseError::InvalidCharacter {
                context: *context,
                found: *found,
            },
            ParseError::UnterminatedKey => ParseError::UnterminatedKey,
        }
    }
}

impl View for ParseError {
    type V = ParseFault;

    open spec fn view(&self) -> ParseFault {
        match *self {
            ParseError::IoFailure(reason) => ParseFault::IoFailure(reason@),
            ParseError::UnrecognizedControl(name) => ParseFault::UnrecognizedControl(name@),
            ParseError::InvalidCharacter { context, found } => ParseFault::InvalidCharacter {
                context,
                found,
            },
            ParseError::UnterminatedKey => ParseFault::UnterminatedKey,
        }
    }
}

} // verus!
