//! Source locations, the generic spanned-value wrapper, and the token model.

use vstd::prelude::*;

verus! {

/// A half-open byte-offset range `[start, end)` into the source text.
#[derive(Debug, Clone, Copy, PartialEq, Eq, Hash)]
pub struct Location(pub usize, pub usize);

impl Location {
    /// The smallest location covering both `self` and `other`:
    /// it starts at the smaller start and ends at the larger end.
    pub open spec fn spec_merge(self, other: Location) -> Location {
        Location(
            if self.0 <= other.0 {
                self.0
            } else {
                other.0
            },
            if self.1 >= other.1 {
                self.1
            } else {
                other.1
            },
        )
    }

    /// Does `self` cover every offset of `inner`?
    pub open spec fn spec_covers(self, inner: Location) -> bool {
        self.0 <= inner.0 && inner.1 <= self.1
    }

    pub fn merge(&self, other: &Location) -> (r: Location)
        ensures
            r == self.spec_merge(*other),
    {
        let start = if self.0 <= other.0 {
            self.0
        } else {
            other.0
        };
        let end = if self.1 >= other.1 {
            self.1
        } else {
            other.1
        };
        Location(start, end)
    }
}

/// Merging two locations does not depend on their order.
pub proof fn lemma_merge_commutative(a: Location, b: Location)
    ensures
        a.spec_merge(b) == b.spec_merge(a),
{
}

/// The merge of two locations is the tightest covering range: it covers both
/// of them, and any location that covers both also covers the merge.
pub proof fn lemma_merge_tightest(a: Location, b: Location)
    ensures
        a.spec_merge(b).spec_covers(a),
        a.spec_merge(b).spec_covers(b),
        forall|c: Location| c.spec_covers(a) && c.spec_covers(b) ==> c.spec_covers(a.spec_merge(b)),
{
}

/// A payload of any kind tagged with the location it came from.
#[derive(Debug, Clone, Copy, PartialEq, Eq, Hash)]
pub struct Annotation<T> {
    pub value: T,
    pub loc: Location,
}

impl<T> Annotation<T> {
    pub fn new(value: T, loc: Location) -> (r: Self)
        ensures
            r == (Annotation { value, loc }),
    {
        Annotation { value, loc }
    }
}

/// The lexical categories of the expression language.
#[derive(Debug, Clone, Copy, PartialEq, Eq, Hash)]
pub enum TokenKind {
    Number(u64),
    Plus,
    Minus,
    Asterisk,
    Slash,
    Lparen,
    Rparen,
}

pub type Token = Annotation<TokenKind>;

impl Token {
    pub fn number(n: u64, loc: Location) -> (r: Self)
        ensures
            r == (Annotation { value: TokenKind::Number(n), loc }),
    {
        Self::new(TokenKind::Number(n), loc)
    }

    pub fn plus(loc: Location) -> (r: Self)
        ensures
            r == (Annotation { value: TokenKind::Plus, loc }),
    {
        Self::new(TokenKind::Plus, loc)
    }

    pub fn minus(loc: Location) -> (r: Self)
        ensures
            r == (Annotation { value: TokenKind::Minus, loc }),
    {
        Self::new(TokenKind::Minus, loc)
    }

    pub fn asterisk(loc: Location) -> (r: Self)
        ensures
            r == (Annotation { value: TokenKind::Asterisk, loc }),
    {
        Self::new(TokenKind::Asterisk, loc)
    }

    pub fn slash(loc: Location) -> (r: Self)
        ensures
            r == (Annotation { value: TokenKind::Slash, loc }),
    {
        Self::new(TokenKind::Slash, loc)
    }

    pub fn lparen(loc: Location) -> (r: Self)
        ensures
            r == (Annotation { value: TokenKind::Lparen, loc }),
    {
        Self::new(TokenKind::Lparen, loc)
    }

    pub fn rparen(loc: Location) -> (r: Self)
        ensures
            r == (Annotation { value: TokenKind::Rparen, loc }),
    {
        Self::new(TokenKind::Rparen, loc)
    }
}

/// The ways lexing can fail.
#[derive(Debug, Clone, Copy, PartialEq, Eq, Hash)]
pub enum LexErrorKind {
    /// A byte that starts no token.
    InvalidChar(char),
    /// The input ended where a byte was required.
    Eof,
    /// A number literal that exceeds the 64-bit unsigned range.
    Overflow,
}

pub type LexError = Annotation<LexErrorKind>;

impl LexError {
    pub fn invalid_char(c: char, loc: Location) -> (r: Self)
        ensures
            r == (Annotation { value: LexErrorKind::InvalidChar(c), loc }),
    {
        Self::new(LexErrorKind::InvalidChar(c), loc)
    }

    pub fn eof(loc: Location) -> (r: Self)
        ensures
            r == (Annotation { value: LexErrorKind::Eof, loc }),
    {
        Self::new(LexErrorKind::Eof, loc)
    }

    pub fn overflow(loc: Location) -> (r: Self)
        ensures
            r == (Annotation { value: LexErrorKind::Overflow, loc }),
    {
        Self::new(LexErrorKind::Overflow, loc)
    }
}

} // verus!
