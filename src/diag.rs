//! Diagnostics: what went wrong, and where in the specification text.
use crate::model::Span;
use vstd::prelude::*;

verus! {

/// Malformed specification text.
#[derive(Clone, Copy, Debug, PartialEq, Eq, Structural)]
pub enum SyntaxKind {
    UnexpectedToken,
    UnexpectedEnd,
    IntegerTooLarge,
    MissingWidth,
    UnknownAccess,
    MalformedBits,
}

/// A violated layout invariant.
#[derive(Clone, Copy, Debug, PartialEq, Eq, Structural)]
pub enum LayoutKind {
    UnsupportedWidth,
    ZeroCount,
    FieldOutOfRange,
    FieldCountMismatch,
    FieldOverlap,
    CodeTooLarge,
    DuplicateCode,
    NestedGroup,
    EntryOverlap,
}

#[derive(Clone, Copy, Debug, PartialEq, Eq, Structural)]
pub enum ErrorKind {
    Syntax(SyntaxKind),
    Layout(LayoutKind),
}

/// An error with the span it concerns, and a second span where two
/// declarations clash.
#[derive(Clone, Copy, Debug, PartialEq, Eq, Structural)]
pub struct Diagnostic {
    pub kind: ErrorKind,
    pub span: Span,
    pub other: Option<Span>,
}

/// The message of each kind of error.
pub open spec fn message_of(kind: ErrorKind) -> Seq<char> {
    match kind {
        ErrorKind::Syntax(k) => match k {
            SyntaxKind::UnexpectedToken => "unexpected token"@,
            SyntaxKind::UnexpectedEnd => "unexpected end of input"@,
            SyntaxKind::IntegerTooLarge => "integer does not fit in 32 bits"@,
            SyntaxKind::MissingWidth => "register declaration without a width"@,
            SyntaxKind::UnknownAccess => "unknown access mode, expected `ro` or `wo`"@,
            SyntaxKind::MalformedBits => "malformed bit range"@,
        },
        ErrorKind::Layout(k) => match k {
            LayoutKind::UnsupportedWidth => "register width must be 8, 16 or 32"@,
            LayoutKind::ZeroCount => "element count must be at least 1"@,
            LayoutKind::FieldOutOfRange => "field lies outside the register"@,
            LayoutKind::FieldCountMismatch => "bit range is not a multiple of the element count"@,
            LayoutKind::FieldOverlap => "fields overlap"@,
            LayoutKind::CodeTooLarge => "variant code does not fit in the field"@,
            LayoutKind::DuplicateCode => "variant code declared twice"@,
            LayoutKind::NestedGroup => "groups cannot be nested"@,
            LayoutKind::EntryOverlap => "registers overlap"@,
        },
    }
}

impl Diagnostic {
    /// A human-readable description of the error, one per kind.
    pub fn message(&self) -> (r: &'static str)
        ensures
            r@ == message_of(self.kind),
    {
        match self.kind {
            ErrorKind::Syntax(k) => match k {
                SyntaxKind::UnexpectedToken => "unexpected token",
                SyntaxKind::UnexpectedEnd => "unexpected end of input",
                SyntaxKind::IntegerTooLarge => "integer does not fit in 32 bits",
                SyntaxKind::MissingWidth => "register declaration without a width",
                SyntaxKind::UnknownAccess => "unknown access mode, expected `ro` or `wo`",
                SyntaxKind::MalformedBits => "malformed bit range",
            },
            ErrorKind::Layout(k) => match k {
                LayoutKind::UnsupportedWidth => "register width must be 8, 16 or 32",
                LayoutKind::ZeroCount => "element count must be at least 1",
                LayoutKind::FieldOutOfRange => "field lies outside the register",
                LayoutKind::FieldCountMismatch => "bit range is not a multiple of the element count",
                LayoutKind::FieldOverlap => "fields overlap",
                LayoutKind::CodeTooLarge => "variant code does not fit in the field",
                LayoutKind::DuplicateCode => "variant code declared twice",
                LayoutKind::NestedGroup => "groups cannot be nested",
                LayoutKind::EntryOverlap => "registers overlap",
            },
        }
    }
}

/// Number of line breaks in `s`.
pub open spec fn line_breaks(s: Seq<u8>) -> nat
    decreases s.len(),
{
    if s.len() == 0 {
        0
    } else {
        line_breaks(s.drop_last()) + if s.last() == 10u8 {
            1nat
        } else {
            0nat
        }
    }
}

/// Position just after the last line break in `s`, or 0.
pub open spec fn line_start(s: Seq<u8>) -> nat
    decreases s.len(),
{
    if s.len() == 0 {
        0
    } else if s.last() == 10u8 {
        s.len()
    } else {
        line_start(s.drop_last())
    }
}

proof fn lemma_line_start_bound(s: Seq<u8>)
    ensures
        line_start(s) <= s.len(),
        line_breaks(s) <= s.len(),
    decreases s.len(),
{
    if s.len() > 0 {
        lemma_line_start_bound(s.drop_last());
    }
}

/// Line and column, both from 1, of byte `offset` of `src`.
pub fn line_col(src: &[u8], offset: usize) -> (r: (usize, usize))
    requires
        offset <= src@.len(),
        offset < usize::MAX,
    ensures
        r.0 == 1 + line_breaks(src@.subrange(0, offset as int)),
        r.1 == 1 + offset - line_start(src@.subrange(0, offset as int)),
{
    let mut line: usize = 1;
    let mut start: usize = 0;
    let mut i: usize = 0;
    while i < offset
        invariant
            0 <= i <= offset <= src@.len(),
            offset < usize::MAX,
            line == 1 + line_breaks(src@.subrange(0, i as int)),
            start == line_start(src@.subrange(0, i as int)),
            start <= i,
            line <= i + 1,
        decreases offset - i,
    {
        proof {
            let s = src@.subrange(0, i as int + 1);
            assert(s.drop_last() =~= src@.subrange(0, i as int));
            assert(s.last() == src@[i as int]);
        }
        if src[i] == 10 {
            line = line + 1;
            start = i + 1;
        }
        i = i + 1;
    }
    (line, 1 + offset - start)
}

} // verus!
