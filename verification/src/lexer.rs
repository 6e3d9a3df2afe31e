//! The lexer: scans a line of text left to right and emits spanned tokens,
//! or the first lexical error.

use vstd::prelude::*;
use vstd::string::StringSliceAdditionalSpecFns;

use crate::token::{Annotation, LexError, LexErrorKind, Location, Token, TokenKind};

verus! {

/// An ASCII decimal digit.
pub open spec fn is_digit_byte(b: u8) -> bool {
    '0' as u8 <= b && b <= '9' as u8
}

/// A whitespace byte the lexer skips: space, newline or tab.
pub open spec fn is_space_byte(b: u8) -> bool {
    b == ' ' as u8 || b == '\n' as u8 || b == '\t' as u8
}

/// The token category of a single-byte symbol, if the byte is one.
pub open spec fn symbol_token_kind(b: u8) -> Option<TokenKind> {
    if b == '+' as u8 {
        Some(TokenKind::Plus)
    } else if b == '-' as u8 {
        Some(TokenKind::Minus)
    } else if b == '*' as u8 {
        Some(TokenKind::Asterisk)
    } else if b == '/' as u8 {
        Some(TokenKind::Slash)
    } else if b == '(' as u8 {
        Some(TokenKind::Lparen)
    } else if b == ')' as u8 {
        Some(TokenKind::Rparen)
    } else {
        None
    }
}

/// The byte classes whose maximal runs the lexer recognizes.
#[derive(Debug, Clone, Copy, PartialEq, Eq)]
pub enum ByteClass {
    Digit,
    Space,
}

pub open spec fn byte_in_class(c: ByteClass, b: u8) -> bool {
    match c {
        ByteClass::Digit => is_digit_byte(b),
        ByteClass::Space => is_space_byte(b),
    }
}

/// Where the maximal run of `c`-class bytes that starts at `pos` ends.
pub open spec fn run_end(s: Seq<u8>, pos: int, c: ByteClass) -> int
    decreases s.len() - pos,
{
    if 0 <= pos < s.len() && byte_in_class(c, s[pos]) {
        run_end(s, pos + 1, c)
    } else {
        pos
    }
}

/// The run reaches no further than the end of the input, every byte in it is
/// of the class, and it is maximal: the byte after it, if any, is not.
pub proof fn lemma_run_end_bounds(s: Seq<u8>, pos: int, c: ByteClass)
    requires
        0 <= pos <= s.len(),
    ensures
        pos <= run_end(s, pos, c) <= s.len(),
        forall|j: int| pos <= j < run_end(s, pos, c) ==> byte_in_class(c, s[j]),
        run_end(s, pos, c) < s.len() ==> !byte_in_class(c, s[run_end(s, pos, c)]),
        pos < s.len() && byte_in_class(c, s[pos]) ==> run_end(s, pos, c) > pos,
    decreases s.len() - pos,
{
    if pos < s.len() && byte_in_class(c, s[pos]) {
        lemma_run_end_bounds(s, pos + 1, c);
    }
}

/// The value of a run of decimal digits, read in base ten.
pub open spec fn digits_value(s: Seq<u8>) -> nat
    decreases s.len(),
{
    if s.len() == 0 {
        0
    } else {
        digits_value(s.drop_last()) * 10 + (s.last() - '0' as u8) as nat
    }
}

/// What lexing the input from position `pos` onwards yields: the remaining
/// tokens in input order, or the first error at or after `pos`.
pub open spec fn spec_lex_from(s: Seq<u8>, pos: int) -> Result<Seq<Token>, LexError>
    decreases s.len() - pos,
{
    if pos < 0 || pos >= s.len() {
        Ok(Seq::empty())
    } else {
        let b = s[pos];
        if is_digit_byte(b) {
            proof {
                lemma_run_end_bounds(s, pos, ByteClass::Digit);
            }
            let end = run_end(s, pos, ByteClass::Digit);
            let loc = Location(pos as usize, end as usize);
            let v = digits_value(s.subrange(pos, end));
            if v > u64::MAX {
                Err(Annotation { value: LexErrorKind::Overflow, loc })
            } else {
                match spec_lex_from(s, end) {
                    Ok(rest) => Ok(
                        seq![Annotation { value: TokenKind::Number(v as u64), loc }] + rest,
                    ),
                    Err(e) => Err(e),
                }
            }
        } else if is_space_byte(b) {
            proof {
                lemma_run_end_bounds(s, pos, ByteClass::Space);
            }
            spec_lex_from(s, run_end(s, pos, ByteClass::Space))
        } else {
            let loc = Location(pos as usize, (pos + 1) as usize);
            match symbol_token_kind(b) {
                Some(k) => match spec_lex_from(s, pos + 1) {
                    Ok(rest) => Ok(seq![Annotation { value: k, loc }] + rest),
                    Err(e) => Err(e),
                },
                None => Err(Annotation { value: LexErrorKind::InvalidChar(b as char), loc }),
            }
        }
    }
}

/// What lexing a whole byte sequence yields.
pub open spec fn spec_lex(s: Seq<u8>) -> Result<Seq<Token>, LexError> {
    spec_lex_from(s, 0)
}

/// A token vector result, seen abstractly as a token sequence result.
pub open spec fn lex_result_view(r: Result<Vec<Token>, LexError>) -> Result<
    Seq<Token>,
    LexError,
> {
    match r {
        Ok(v) => Ok(v@),
        Err(e) => Err(e),
    }
}

/// Prepends the tokens already emitted to whatever lexing the rest yields.
pub open spec fn lex_append(pre: Seq<Token>, r: Result<Seq<Token>, LexError>) -> Result<
    Seq<Token>,
    LexError,
> {
    match r {
        Ok(toks) => Ok(pre + toks),
        Err(e) => Err(e),
    }
}

/// What consuming one expected symbol byte and wrapping it as a token yields.
pub open spec fn spec_lex_symbol(input: Seq<u8>, start: int, b: u8, k: TokenKind) -> Result<
    (Token, usize),
    LexError,
> {
    if input.len() <= start {
        Err(Annotation { value: LexErrorKind::Eof, loc: Location(start as usize, start as usize) })
    } else if input[start] != b {
        Err(
            Annotation {
                value: LexErrorKind::InvalidChar(input[start] as char),
                loc: Location(start as usize, (start + 1) as usize),
            },
        )
    } else {
        Ok(
            (
                Annotation { value: k, loc: Location(start as usize, (start + 1) as usize) },
                (start + 1) as usize,
            ),
        )
    }
}

/// Requires the byte `b` at `position`, and consumes it.
pub fn consume_byte(input: &[u8], position: usize, b: u8) -> (r: Result<(u8, usize), LexError>)
    ensures
        input@.len() <= position ==> r == Err::<(u8, usize), LexError>(
            Annotation { value: LexErrorKind::Eof, loc: Location(position, position) },
        ),
        position < input@.len() && input@[position as int] != b ==> r == Err::<
            (u8, usize),
            LexError,
        >(
            Annotation {
                value: LexErrorKind::InvalidChar(input@[position as int] as char),
                loc: Location(position, (position + 1) as usize),
            },
        ),
        position < input@.len() && input@[position as int] == b ==> r == Ok::<
            (u8, usize),
            LexError,
        >((b, (position + 1) as usize)),
{
    if input.len() <= position {
        return Err(LexError::eof(Location(position, position)));
    }
    if input[position] != b {
        return Err(
            LexError::invalid_char(input[position] as char, Location(position, position + 1)),
        );
    }
    Ok((b, position + 1))
}

pub fn lex_plus(input: &[u8], start: usize) -> (r: Result<(Token, usize), LexError>)
    ensures
        r == spec_lex_symbol(input@, start as int, '+' as u8, TokenKind::Plus),
{
    match consume_byte(input, start, '+' as u8) {
        Ok((_, end)) => Ok((Token::plus(Location(start, end)), end)),
        Err(e) => Err(e),
    }
}

pub fn lex_minus(input: &[u8], start: usize) -> (r: Result<(Token, usize), LexError>)
    ensures
        r == spec_lex_symbol(input@, start as int, '-' as u8, TokenKind::Minus),
{
    match consume_byte(input, start, '-' as u8) {
        Ok((_, end)) => Ok((Token::minus(Location(start, end)), end)),
        Err(e) => Err(e),
    }
}

pub fn lex_asterisk(input: &[u8], start: usize) -> (r: Result<(Token, usize), LexError>)
    ensures
        r == spec_lex_symbol(input@, start as int, '*' as u8, TokenKind::Asterisk),
{
    match consume_byte(input, start, '*' as u8) {
        Ok((_, end)) => Ok((Token::asterisk(Location(start, end)), end)),
        Err(e) => Err(e),
    }
}

pub fn lex_slash(input: &[u8], start: usize) -> (r: Result<(Token, usize), LexError>)
    ensures
        r == spec_lex_symbol(input@, start as int, '/' as u8, TokenKind::Slash),
{
    match consume_byte(input, start, '/' as u8) {
        Ok((_, end)) => Ok((Token::slash(Location(start, end)), end)),
        Err(e) => Err(e),
    }
}

pub fn lex_lparen(input: &[u8], start: usize) -> (r: Result<(Token, usize), LexError>)
    ensures
        r == spec_lex_symbol(input@, start as int, '(' as u8, TokenKind::Lparen),
{
    match consume_byte(input, start, '(' as u8) {
        Ok((_, end)) => Ok((Token::lparen(Location(start, end)), end)),
        Err(e) => Err(e),
    }
}

pub fn lex_rparen(input: &[u8], start: usize) -> (r: Result<(Token, usize), LexError>)
    ensures
        r == spec_lex_symbol(input@, start as int, ')' as u8, TokenKind::Rparen),
{
    match consume_byte(input, start, ')' as u8) {
        Ok((_, end)) => Ok((Token::rparen(Location(start, end)), end)),
        Err(e) => Err(e),
    }
}

fn byte_matches(class: ByteClass, b: u8) -> (r: bool)
    ensures
        r == byte_in_class(class, b),
{
    match class {
        ByteClass::Digit => '0' as u8 <= b && b <= '9' as u8,
        ByteClass::Space => b == ' ' as u8 || b == '\n' as u8 || b == '\t' as u8,
    }
}

/// Scans past the maximal run of `class` bytes starting at `position` and
/// returns the offset just after it.
#[verifier::loop_isolation(false)]
pub fn recognize_many(input: &[u8], position: usize, class: ByteClass) -> (end: usize)
    ensures
        end as int == run_end(input@, position as int, class),
{
    if position >= input.len() {
        return position;
    }
    let mut pos = position;
    loop
        invariant
            position <= pos <= input@.len(),
            run_end(input@, position as int, class) == run_end(input@, pos as int, class),
        decreases input@.len() - pos,
    {
        if pos >= input.len() {
            return pos;
        }
        if !byte_matches(class, input[pos]) {
            return pos;
        }
        pos = pos + 1;
    }
}

/// Skips a maximal run of whitespace; never fails.
pub fn skip_spaces(input: &[u8], position: usize) -> (r: Result<((), usize), LexError>)
    ensures
        r == Ok::<((), usize), LexError>(
            ((), run_end(input@, position as int, ByteClass::Space) as usize),
        ),
{
    let position = recognize_many(input, position, ByteClass::Space);
    Ok(((), position))
}

/// Appending one more digit multiplies the value by ten and adds the digit.
proof fn lemma_digits_value_step(s: Seq<u8>, start: int, i: int)
    requires
        0 <= start <= i < s.len(),
    ensures
        digits_value(s.subrange(start, i + 1)) == digits_value(s.subrange(start, i)) * 10 + (s[i]
            - '0' as u8) as nat,
{
    assert(s.subrange(start, i + 1).drop_last() =~= s.subrange(start, i));
    assert(s.subrange(start, i + 1).last() == s[i]);
}

/// A longer digit run never has a smaller value.
proof fn lemma_digits_value_monotone(s: Seq<u8>, start: int, i: int, j: int)
    requires
        0 <= start <= i <= j <= s.len(),
        forall|k: int| start <= k < j ==> is_digit_byte(s[k]),
    ensures
        digits_value(s.subrange(start, i)) <= digits_value(s.subrange(start, j)),
    decreases j - i,
{
    if i < j {
        lemma_digits_value_step(s, start, j - 1);
        lemma_digits_value_monotone(s, start, i, j - 1);
    }
}

/// Reads the maximal digit run starting at `position` as a base-ten number
/// token, or reports overflow when the literal exceeds the unsigned 64-bit
/// range.
#[verifier::loop_isolation(false)]
pub fn lex_number(input: &[u8], position: usize) -> (r: Result<(Token, usize), LexError>)
    requires
        position < input@.len(),
        is_digit_byte(input@[position as int]),
    ensures
        ({
            let end = run_end(input@, position as int, ByteClass::Digit);
            let v = digits_value(input@.subrange(position as int, end));
            let loc = Location(position, end as usize);
            if v > u64::MAX {
                r == Err::<(Token, usize), LexError>(
                    Annotation { value: LexErrorKind::Overflow, loc },
                )
            } else {
                r == Ok::<(Token, usize), LexError>(
                    (Annotation { value: TokenKind::Number(v as u64), loc }, end as usize),
                )
            }
        }),
{
    let ghost s = input@;
    let start = position;
    let end = recognize_many(input, start, ByteClass::Digit);
    proof {
        lemma_run_end_bounds(s, start as int, ByteClass::Digit);
    }
    let mut n: u64 = 0;
    let mut i = start;
    while i < end
        invariant
            start <= i <= end,
            end as int == run_end(s, start as int, ByteClass::Digit),
            end <= s.len(),
            s == input@,
            forall|j: int| start <= j < end ==> is_digit_byte(s[j]),
            n == digits_value(s.subrange(start as int, i as int)),
        decreases end - i,
    {
        let d = input[i] - '0' as u8;
        proof {
            lemma_digits_value_step(s, start as int, i as int);
            vstd::arithmetic::div_mod::lemma_fundamental_div_mod(u64::MAX - d as u64, 10);
            vstd::arithmetic::div_mod::lemma_mod_bound(u64::MAX - d as u64, 10);
        }
        if n > (u64::MAX - d as u64) / 10 {
            proof {
                lemma_digits_value_monotone(s, start as int, i as int + 1, end as int);
            }
            return Err(LexError::overflow(Location(start, end)));
        }
        n = n * 10 + d as u64;
        i = i + 1;
    }
    proof {
        assert(s.subrange(start as int, end as int) =~= s.subrange(start as int, i as int));
    }
    Ok((Token::number(n, Location(start, end)), end))
}

/// One lexing step over a symbol byte: the token goes to the back of what
/// was already emitted, and lexing goes on just past the byte.
proof fn lemma_lex_step_symbol(s: Seq<u8>, pos: int, pre: Seq<Token>, tok: Token)
    requires
        0 <= pos < s.len(),
        !is_digit_byte(s[pos]),
        !is_space_byte(s[pos]),
        symbol_token_kind(s[pos]) is Some,
        tok == (Annotation {
            value: symbol_token_kind(s[pos])->Some_0,
            loc: Location(pos as usize, (pos + 1) as usize),
        }),
    ensures
        lex_append(pre, spec_lex_from(s, pos)) == lex_append(pre.push(tok), spec_lex_from(s, pos + 1)),
{
    match spec_lex_from(s, pos + 1) {
        Ok(r) => {
            assert(pre + (seq![tok] + r) =~= pre.push(tok) + r);
        },
        Err(_) => {},
    }
}

/// One lexing step over a digit run whose value fits: the number token goes to
/// the back, and lexing goes on at the end of the run.
proof fn lemma_lex_step_number(s: Seq<u8>, pos: int, pre: Seq<Token>, tok: Token)
    requires
        0 <= pos < s.len(),
        is_digit_byte(s[pos]),
        digits_value(s.subrange(pos, run_end(s, pos, ByteClass::Digit))) <= u64::MAX,
        tok == (Annotation {
            value: TokenKind::Number(
                digits_value(s.subrange(pos, run_end(s, pos, ByteClass::Digit))) as u64,
            ),
            loc: Location(pos as usize, run_end(s, pos, ByteClass::Digit) as usize),
        }),
    ensures
        lex_append(pre, spec_lex_from(s, pos)) == lex_append(
            pre.push(tok),
            spec_lex_from(s, run_end(s, pos, ByteClass::Digit)),
        ),
{
    match spec_lex_from(s, run_end(s, pos, ByteClass::Digit)) {
        Ok(r) => {
            assert(pre + (seq![tok] + r) =~= pre.push(tok) + r);
        },
        Err(_) => {},
    }
}

/// Lexes a whole line: a sequence of spanned tokens in input order, or the
/// first lexical error. Exactly `spec_lex` on the input's bytes.
#[verifier::loop_isolation(false)]
pub fn lex(input: &str) -> (r: Result<Vec<Token>, LexError>)
    ensures
        lex_result_view(r) == spec_lex(input.spec_bytes()),
{
    let bytes = input.as_bytes();
    let ghost s = input.spec_bytes();
    let mut tokens: Vec<Token> = Vec::new();
    let mut position: usize = 0;
    proof {
        if spec_lex_from(s, 0) is Ok {
            assert(tokens@ + spec_lex_from(s, 0)->Ok_0 =~= spec_lex_from(s, 0)->Ok_0);
        }
    }
    while position < bytes.len()
        invariant
            position <= s.len(),
            s == bytes@,
            s == input.spec_bytes(),
            spec_lex(input.spec_bytes()) == lex_append(tokens@, spec_lex_from(s, position as int)),
        decreases s.len() - position,
    {
        let b = bytes[position];
        if '0' as u8 <= b && b <= '9' as u8 {
            match lex_number(bytes, position) {
                Ok((tok, p)) => {
                    proof {
                        lemma_run_end_bounds(s, position as int, ByteClass::Digit);
                        lemma_lex_step_number(s, position as int, tokens@, tok);
                    }
                    tokens.push(tok);
                    position = p;
                },
                Err(e) => {
                    return Err(e);
                },
            }
        } else if b == ' ' as u8 || b == '\n' as u8 || b == '\t' as u8 {
            match skip_spaces(bytes, position) {
                Ok((_, p)) => {
                    proof {
                        lemma_run_end_bounds(s, position as int, ByteClass::Space);
                    }
                    position = p;
                },
                Err(e) => {
                    return Err(e);
                },
            }
        } else {
            let step = if b == '+' as u8 {
                lex_plus(bytes, position)
            } else if b == '-' as u8 {
                lex_minus(bytes, position)
            } else if b == '*' as u8 {
                lex_asterisk(bytes, position)
            } else if b == '/' as u8 {
                lex_slash(bytes, position)
            } else if b == '(' as u8 {
                lex_lparen(bytes, position)
            } else if b == ')' as u8 {
                lex_rparen(bytes, position)
            } else {
                return Err(LexError::invalid_char(b as char, Location(position, position + 1)));
            };
            match step {
                Ok((tok, p)) => {
                    proof {
                        lemma_lex_step_symbol(s, position as int, tokens@, tok);
                    }
                    tokens.push(tok);
                    position = p;
                },
                Err(e) => {
                    return Err(e);
                },
            }
        }
    }
    Ok(tokens)
}

/// The token kinds and error kind of a lexing result, spans set aside.
pub open spec fn lex_kinds(r: Result<Seq<Token>, LexError>) -> Result<
    Seq<TokenKind>,
    LexErrorKind,
> {
    match r {
        Ok(toks) => Ok(toks.map_values(|t: Token| t.value)),
        Err(e) => Err(e.value),
    }
}

/// Mapping to kinds sends a front token to the front kind.
proof fn lemma_kinds_cons(tok: Token, rest: Seq<Token>)
    ensures
        (seq![tok] + rest).map_values(|t: Token| t.value) == seq![tok.value] + rest.map_values(
            |t: Token| t.value,
        ),
{
    assert((seq![tok] + rest).map_values(|t: Token| t.value) =~= seq![tok.value]
        + rest.map_values(|t: Token| t.value));
}

/// A maximal run is the one offset with its shape: everything before it in
/// the class, and the byte at it, if any, outside the class.
proof fn lemma_run_end_is(s: Seq<u8>, pos: int, c: ByteClass, x: int)
    requires
        0 <= pos <= x <= s.len(),
        forall|j: int| pos <= j < x ==> byte_in_class(c, s[j]),
        x < s.len() ==> !byte_in_class(c, s[x]),
    ensures
        run_end(s, pos, c) == x,
    decreases x - pos,
{
    if pos < x {
        lemma_run_end_is(s, pos + 1, c, x);
    }
}

/// Runs shift with their text: over equal suffixes the run is equally long.
proof fn lemma_run_end_shift(s1: Seq<u8>, p1: int, s2: Seq<u8>, p2: int, c: ByteClass)
    requires
        0 <= p1 <= s1.len(),
        0 <= p2 <= s2.len(),
        s1.subrange(p1, s1.len() as int) == s2.subrange(p2, s2.len() as int),
    ensures
        run_end(s1, p1, c) - p1 == run_end(s2, p2, c) - p2,
    decreases s1.len() - p1,
{
    assert(s1.subrange(p1, s1.len() as int).len() == s1.len() - p1);
    assert(s2.subrange(p2, s2.len() as int).len() == s2.len() - p2);
    assert(s1.len() - p1 == s2.len() - p2);
    if p1 < s1.len() {
        assert(s1[p1] == s2[p2]) by {
            assert(s1.subrange(p1, s1.len() as int)[0] == s1[p1]);
            assert(s2.subrange(p2, s2.len() as int)[0] == s2[p2]);
        }
        if byte_in_class(c, s1[p1]) {
            assert forall|j: int| p1 <= j < s1.len() implies #[trigger] s1[j] == s2[j - p1
                + p2] by {
                assert(s1.subrange(p1, s1.len() as int)[j - p1] == s1[j]);
                assert(s2.subrange(p2, s2.len() as int)[j - p1] == s2[j - p1 + p2]);
            }
            assert(s1.subrange(p1 + 1, s1.len() as int) =~= s2.subrange(p2 + 1, s2.len() as int));
            lemma_run_end_shift(s1, p1 + 1, s2, p2 + 1, c);
        }
    }
}

/// Lexing reads nothing before the cursor: over equal suffixes it yields the
/// same token kinds, whatever stands before them and at whatever offset.
proof fn lemma_lex_kinds_shift(s1: Seq<u8>, p1: int, s2: Seq<u8>, p2: int)
    requires
        0 <= p1 <= s1.len(),
        0 <= p2 <= s2.len(),
        s1.subrange(p1, s1.len() as int) == s2.subrange(p2, s2.len() as int),
    ensures
        lex_kinds(spec_lex_from(s1, p1)) == lex_kinds(spec_lex_from(s2, p2)),
    decreases s1.len() - p1,
{
    assert(s1.len() - p1 == s2.len() - p2) by {
        assert(s1.subrange(p1, s1.len() as int).len() == s2.subrange(p2, s2.len() as int).len());
    }
    assert forall|j: int| p1 <= j < s1.len() implies #[trigger] s1[j] == s2[j - p1 + p2] by {
        assert(s1.subrange(p1, s1.len() as int)[j - p1] == s1[j]);
        assert(s2.subrange(p2, s2.len() as int)[j - p1] == s2[j - p1 + p2]);
    }
    if p1 < s1.len() {
        assert(s1[p1] == s2[p2]);
        let b = s1[p1];
        if is_digit_byte(b) {
            lemma_run_end_shift(s1, p1, s2, p2, ByteClass::Digit);
            lemma_run_end_bounds(s1, p1, ByteClass::Digit);
            lemma_run_end_bounds(s2, p2, ByteClass::Digit);
            let e1 = run_end(s1, p1, ByteClass::Digit);
            let e2 = run_end(s2, p2, ByteClass::Digit);
            assert(s1.subrange(p1, e1) =~= s2.subrange(p2, e2));
            assert(s1.subrange(e1, s1.len() as int) =~= s2.subrange(e2, s2.len() as int));
            let v = digits_value(s1.subrange(p1, e1));
            if v <= u64::MAX {
                lemma_lex_kinds_shift(s1, e1, s2, e2);
                let tok1 = Annotation {
                    value: TokenKind::Number(v as u64),
                    loc: Location(p1 as usize, e1 as usize),
                };
                let tok2 = Annotation {
                    value: TokenKind::Number(v as u64),
                    loc: Location(p2 as usize, e2 as usize),
                };
                match spec_lex_from(s1, e1) {
                    Ok(r1) => {
                        lemma_kinds_cons(tok1, r1);
                        lemma_kinds_cons(tok2, spec_lex_from(s2, e2)->Ok_0);
                    },
                    Err(_) => {},
                }
            }
        } else if is_space_byte(b) {
            lemma_run_end_shift(s1, p1, s2, p2, ByteClass::Space);
            lemma_run_end_bounds(s1, p1, ByteClass::Space);
            lemma_run_end_bounds(s2, p2, ByteClass::Space);
            let e1 = run_end(s1, p1, ByteClass::Space);
            let e2 = run_end(s2, p2, ByteClass::Space);
            assert(s1.subrange(e1, s1.len() as int) =~= s2.subrange(e2, s2.len() as int));
            lemma_lex_kinds_shift(s1, e1, s2, e2);
        } else {
            match symbol_token_kind(b) {
                Some(k) => {
                    assert(s1.subrange(p1 + 1, s1.len() as int) =~= s2.subrange(
                        p2 + 1,
                        s2.len() as int,
                    ));
                    lemma_lex_kinds_shift(s1, p1 + 1, s2, p2 + 1);
                    let tok1 = Annotation {
                        value: k,
                        loc: Location(p1 as usize, (p1 + 1) as usize),
                    };
                    let tok2 = Annotation {
                        value: k,
                        loc: Location(p2 as usize, (p2 + 1) as usize),
                    };
                    match spec_lex_from(s1, p1 + 1) {
                        Ok(r1) => {
                            lemma_kinds_cons(tok1, r1);
                            lemma_kinds_cons(tok2, spec_lex_from(s2, p2 + 1)->Ok_0);
                        },
                        Err(_) => {},
                    }
                },
                None => {},
            }
        }
    }
}

/// `s` with the byte `w` inserted just before offset `i`.
pub open spec fn insert_byte(s: Seq<u8>, i: int, w: u8) -> Seq<u8> {
    s.subrange(0, i) + seq![w] + s.subrange(i, s.len() as int)
}

/// How the inserted sequence reads: unchanged before `i`, `w` at `i`, and the
/// rest of `s` one offset later.
proof fn lemma_insert_byte_facts(s: Seq<u8>, i: int, w: u8)
    requires
        0 <= i <= s.len(),
    ensures
        insert_byte(s, i, w).len() == s.len() + 1,
        forall|j: int| 0 <= j < i ==> insert_byte(s, i, w)[j] == s[j],
        insert_byte(s, i, w)[i] == w,
        forall|j: int| i < j <= s.len() ==> insert_byte(s, i, w)[j] == s[j - 1],
{
}

/// The induction behind whitespace-insensitivity: with the cursor anywhere at
/// or before the insertion point, the token kinds come out the same.
proof fn lemma_lex_insert_space_from(s: Seq<u8>, i: int, w: u8, pos: int)
    requires
        0 <= pos <= i <= s.len(),
        is_space_byte(w),
        !(0 < i < s.len() && is_digit_byte(s[i - 1]) && is_digit_byte(s[i])),
    ensures
        lex_kinds(spec_lex_from(insert_byte(s, i, w), pos)) == lex_kinds(spec_lex_from(s, pos)),
    decreases i - pos,
{
    let t = insert_byte(s, i, w);
    lemma_insert_byte_facts(s, i, w);
    if pos == i {
        // the lexer meets the inserted byte: it joins a (possibly empty)
        // whitespace run, after which the suffixes agree again
        let e1 = run_end(s, i, ByteClass::Space);
        lemma_run_end_bounds(s, i, ByteClass::Space);
        lemma_run_end_is(t, i, ByteClass::Space, e1 + 1);
        assert(t.subrange(e1 + 1, t.len() as int) =~= s.subrange(e1, s.len() as int));
        lemma_lex_kinds_shift(t, e1 + 1, s, e1);
    } else {
        // pos < i: both sequences show the same byte here
        let b = s[pos];
        assert(t[pos] == b);
        if is_digit_byte(b) {
            let e = run_end(s, pos, ByteClass::Digit);
            lemma_run_end_bounds(s, pos, ByteClass::Digit);
            // the run cannot cross the insertion point: that would put digits
            // on both of its sides, which the premise rules out
            assert(e <= i);
            lemma_run_end_is(t, pos, ByteClass::Digit, e);
            assert(t.subrange(pos, e) =~= s.subrange(pos, e));
            let v = digits_value(s.subrange(pos, e));
            if v <= u64::MAX {
                lemma_lex_insert_space_from(s, i, w, e);
                let loc = Location(pos as usize, e as usize);
                let tok = Annotation { value: TokenKind::Number(v as u64), loc };
                match spec_lex_from(s, e) {
                    Ok(r1) => {
                        lemma_kinds_cons(tok, r1);
                        lemma_kinds_cons(tok, spec_lex_from(t, e)->Ok_0);
                    },
                    Err(_) => {},
                }
            }
        } else if is_space_byte(b) {
            let e1 = run_end(s, pos, ByteClass::Space);
            lemma_run_end_bounds(s, pos, ByteClass::Space);
            if e1 < i {
                lemma_run_end_is(t, pos, ByteClass::Space, e1);
                lemma_lex_insert_space_from(s, i, w, e1);
            } else {
                // the whitespace run reaches the insertion point, and the
                // inserted space joins it
                lemma_run_end_is(t, pos, ByteClass::Space, e1 + 1);
                assert(t.subrange(e1 + 1, t.len() as int) =~= s.subrange(e1, s.len() as int));
                lemma_lex_kinds_shift(t, e1 + 1, s, e1);
            }
        } else {
            match symbol_token_kind(b) {
                Some(k) => {
                    lemma_lex_insert_space_from(s, i, w, pos + 1);
                    let loc = Location(pos as usize, (pos + 1) as usize);
                    let tok = Annotation { value: k, loc };
                    match spec_lex_from(s, pos + 1) {
                        Ok(r1) => {
                            lemma_kinds_cons(tok, r1);
                            lemma_kinds_cons(tok, spec_lex_from(t, pos + 1)->Ok_0);
                        },
                        Err(_) => {},
                    }
                },
                None => {},
            }
        }
    }
}

/// Inserting a whitespace byte anywhere that does not split a digit run — in
/// other words, between tokens — never changes the lexed token values or the
/// error kind: only the spans shift. Read the other way, removing such a byte
/// changes them no more; runs of whitespace come and go one byte at a time.
pub proof fn lemma_lex_whitespace_insensitive(s: Seq<u8>, i: int, w: u8)
    requires
        0 <= i <= s.len(),
        is_space_byte(w),
        !(0 < i < s.len() && is_digit_byte(s[i - 1]) && is_digit_byte(s[i])),
    ensures
        lex_kinds(spec_lex(insert_byte(s, i, w))) == lex_kinds(spec_lex(s)),
{
    lemma_lex_insert_space_from(s, i, w, 0);
}

} // verus!
