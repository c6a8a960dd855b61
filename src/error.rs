//! The error taxonomy of the parser.
use vstd::prelude::*;

verus! {

/// What the parser was looking for where it stopped.
#[derive(Clone, Copy, Debug, PartialEq, Eq, Structural)]
pub enum Expected {
    Char(char),
    Name,
    Keyword,
    Digit,
    Value,
    Type,
    Selection,
    Definition,
}

#[derive(Clone, Copy, Debug, PartialEq, Eq, Structural)]
pub enum ErrorKind {
    /// The grammar failed to match here.
    Syntax(Expected),
    /// An integer literal does not fit in 64 signed bits.
    Range,
    /// An argument or object field name repeats within one owner.
    DuplicateKey,
    /// A `\` escape in a string is unknown, or a `\u` escape is not a scalar value.
    InvalidEscape,
    /// Selections, lists, objects or types are nested too deeply.
    TooDeep,
}

/// An error and the character offset where it was detected.
#[derive(Clone, Copy, Debug, PartialEq, Eq, Structural)]
pub struct Fault {
    pub kind: ErrorKind,
    pub offset: usize,
}

/// The error of a whole parse, with its position as a 1-based line and column.
#[derive(Clone, Copy, Debug, PartialEq, Eq, Structural)]
pub struct ParseError {
    pub kind: ErrorKind,
    pub offset: usize,
    pub line: usize,
    pub column: usize,
}

/// An error as the grammar states it: its kind and offset.
pub type Fail = (ErrorKind, int);

/// The outcome of an executable production matches the outcome the grammar states.
pub open spec fn agrees<T, M>(
    r: Result<(T, usize), Fault>,
    m: Result<(M, int), Fail>,
    model: spec_fn(T) -> M,
) -> bool {
    match r {
        Ok((v, e)) => m == Ok::<(M, int), Fail>((model(v), e as int)),
        Err(f) => m == Err::<(M, int), Fail>((f.kind, f.offset as int)),
    }
}

pub open spec fn fail<M>(kind: ErrorKind, at: int) -> Result<(M, int), Fail> {
    Err((kind, at))
}

pub open spec fn syntax<M>(e: Expected, at: int) -> Result<(M, int), Fail> {
    Err((ErrorKind::Syntax(e), at))
}

pub fn fault<T>(kind: ErrorKind, at: usize) -> (r: Result<T, Fault>)
    ensures
        r == Err::<T, Fault>(Fault { kind, offset: at }),
{
    Err(Fault { kind, offset: at })
}

} // verus!
