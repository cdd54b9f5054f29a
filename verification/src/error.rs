//! Errors of every stage, and the tracebacks that wrap them.

use vstd::prelude::*;
use vstd::string::StringExecFns;
use crate::text::{decimal, push_char, push_decimal};

verus! {

/// The kinds of error.
#[derive(Debug, Clone, Copy, PartialEq, Eq, Structural)]
pub enum ErrorType {
    IllegalCharError,
    RuntimeError,
    IllegalArgumentError,
    SyntaxError,
    IllegalCastError,
    IndexOutOfBoundsError,
    FileError,
    NameError,
    Traceback,
    StackOverflowError,
}

impl ErrorType {
    /// The name under which a kind is shown.
    pub open spec fn name(self) -> Seq<char> {
        match self {
            ErrorType::IllegalCharError => "Illegal Character"@,
            ErrorType::RuntimeError => "Runtime Error"@,
            ErrorType::IllegalArgumentError => "Illegal Argument"@,
            ErrorType::SyntaxError => "Syntax Error"@,
            ErrorType::IllegalCastError => "Illegal Cast"@,
            ErrorType::IndexOutOfBoundsError => "Index Out of Bounds"@,
            ErrorType::FileError => "File Error"@,
            ErrorType::NameError => "Name Error"@,
            ErrorType::Traceback => "Traceback"@,
            ErrorType::StackOverflowError => "Stack Overflow"@,
        }
    }

    pub fn as_string(&self) -> (r: String)
        ensures
            r@ == self.name(),
    {
        let name = match self {
            ErrorType::IllegalCharError => "Illegal Character",
            ErrorType::RuntimeError => "Runtime Error",
            ErrorType::IllegalArgumentError => "Illegal Argument",
            ErrorType::SyntaxError => "Syntax Error",
            ErrorType::IllegalCastError => "Illegal Cast",
            ErrorType::IndexOutOfBoundsError => "Index Out of Bounds",
            ErrorType::FileError => "File Error",
            ErrorType::NameError => "Name Error",
            ErrorType::Traceback => "Traceback",
            ErrorType::StackOverflowError => "Stack Overflow",
        };
        String::from_str(name)
    }
}

/// What an error is: its kind, its description, the source line if one is
/// known, and for a traceback the error that it wraps.
pub struct ErrorView {
    pub err: ErrorType,
    pub desc: Seq<char>,
    pub line: Option<usize>,
    pub child: Option<Box<ErrorView>>,
}

/// A leaf error.
pub open spec fn leaf(err: ErrorType, desc: Seq<char>, line: Option<usize>) -> ErrorView {
    ErrorView { err, desc, line, child: None }
}

/// A traceback around `child`.
pub open spec fn wrapped(child: ErrorView, line: Option<usize>) -> ErrorView {
    ErrorView { err: ErrorType::Traceback, desc: Seq::empty(), line, child: Some(Box::new(child)) }
}

/// The text of an error: the chain from the outermost traceback to the
/// leaf, one line each: the kind, the source line where one is known, and
/// for the leaf its description.
pub open spec fn render_spec(e: ErrorView) -> Seq<char>
    decreases e,
{
    let lined = match e.line {
        Some(n) => e.err.name() + " on line "@ + decimal(n as nat),
        None => e.err.name(),
    };
    match e.child {
        None => lined + ": "@ + e.desc,
        Some(c) => lined + seq!['\n'] + render_spec(*c),
    }
}

/// The error at the bottom of a chain of tracebacks.
pub open spec fn leaf_of(e: ErrorView) -> ErrorView
    decreases e,
{
    match e.child {
        Some(c) => leaf_of(*c),
        None => e,
    }
}

#[derive(Debug)]
pub struct Error {
    err: ErrorType,
    desc: String,
    // line could not exist
    line: Option<usize>,
    // child could not exist
    child: Option<Box<Error>>,
}

impl View for Error {
    type V = ErrorView;

    closed spec fn view(&self) -> ErrorView
        decreases self,
    {
        ErrorView {
            err: self.err,
            desc: self.desc@,
            line: self.line,
            child: match self.child {
                Some(c) => Some(Box::new((*c).view())),
                None => None,
            },
        }
    }
}

impl Error {
    /// A leaf error. A traceback is made by `traceback`.
    pub fn new(err: ErrorType, desc: &str, line: Option<usize>) -> (r: Error)
        requires
            err != ErrorType::Traceback,
        ensures
            r@ == leaf(err, desc@, line),
    {
        Error { err, desc: String::from_str(desc), line, child: None }
    }

    pub fn traceback(child: Error, line: Option<usize>) -> (r: Error)
        ensures
            r@ == wrapped(child@, line),
    {
        Error { err: ErrorType::Traceback, desc: String::new(), line, child: Some(Box::new(child)) }
    }

    /// The kind of the error.
    pub fn kind(&self) -> (r: ErrorType)
        ensures
            r == self@.err,
    {
        self.err
    }

    /// The source line, where one is known.
    pub fn line(&self) -> (r: Option<usize>)
        ensures
            r == self@.line,
    {
        self.line
    }

    /// The description of a leaf; empty for a traceback.
    pub fn description(&self) -> (r: &String)
        ensures
            r@ == self@.desc,
    {
        &self.desc
    }

    /// The error that a traceback wraps.
    pub fn child(&self) -> (r: Option<&Error>)
        ensures
            r is Some == self@.child is Some,
            r is Some ==> r->0@ == *self@.child->0,
    {
        match &self.child {
            Some(c) => Some(&**c),
            None => None,
        }
    }

    /// The text shown to the user.
    pub fn to_string(&self) -> (r: String)
        ensures
            r@ == render_spec(self@),
        decreases self,
    {
        // error name
        let mut res = self.err.as_string();
        // error line if exists
        match self.line {
            Some(n) => {
                res.append(" on line ");
                push_decimal(&mut res, n as u64);
            },
            None => {},
        }
        match &self.child {
            // the wrapped error follows a traceback
            Some(c) => {
                push_char(&mut res, '\n');
                let inner = c.to_string();
                res.append(inner.as_str());
            },
            // error description if not traceback
            None => {
                res.append(": ");
                res.append(self.desc.as_str());
            },
        }
        assert(res@ =~= render_spec(self@));
        res
    }
}

impl Clone for Error {
    fn clone(&self) -> (r: Self)
        ensures
            r@ == self@,
        decreases self,
    {
        Error {
            err: self.err,
            desc: self.desc.clone(),
            line: self.line,
            child: match &self.child {
                Some(c) => Some(Box::new((**c).clone())),
                None => None,
            },
        }
    }
}

} // verus!
