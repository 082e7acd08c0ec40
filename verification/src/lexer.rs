//! The lexer: a byte buffer, a cursor, and one operation `next` that yields
//! the next lexeme. Its behaviour is fixed by the specification function
//! [`spec_next`], a mathematical single-token lexer over the byte sequence.

use vstd::prelude::*;
use vstd::utf8::{decode_utf8, valid_utf8};
use crate::tokens::{
    is_alpha, is_digit, is_ident_char, is_op_char, is_space, keyword_of, op_of, Keyword,
    LexError, Lexeme, Operator, Token,
};

verus! {

/// First position at or after `i` that does not hold ASCII whitespace.
pub open spec fn skip_ws(p: Seq<u8>, i: int) -> int
    decreases p.len() - i
        when 0 <= i <= p.len()
{
    if i < p.len() && is_space(p[i]) {
        skip_ws(p, i + 1)
    } else {
        i
    }
}

/// First position at or after `i` holding the byte `b`, or the length of
/// the input if there is none.
pub open spec fn find_byte(p: Seq<u8>, i: int, b: u8) -> int
    decreases p.len() - i
        when 0 <= i <= p.len()
{
    if i < p.len() && p[i] != b {
        find_byte(p, i + 1, b)
    } else {
        i
    }
}

/// End of the maximal run of decimal digits starting at `i`.
pub open spec fn scan_digits(p: Seq<u8>, i: int) -> int
    decreases p.len() - i
        when 0 <= i <= p.len()
{
    if i < p.len() && is_digit(p[i]) {
        scan_digits(p, i + 1)
    } else {
        i
    }
}

/// End of the maximal run of identifier characters starting at `i`.
pub open spec fn scan_ident(p: Seq<u8>, i: int) -> int
    decreases p.len() - i
        when 0 <= i <= p.len()
{
    if i < p.len() && is_ident_char(p[i]) {
        scan_ident(p, i + 1)
    } else {
        i
    }
}

/// Numeric value of a digit string, most significant digit first.
pub open spec fn digits_val(s: Seq<u8>) -> int
    decreases s.len(),
{
    if s.len() == 0 {
        0
    } else {
        digits_val(s.drop_last()) * 10 + (s.last() - 48)
    }
}

/// Maximal-munch operator scan. Starting from the candidate `p[start..k]`,
/// it extends the candidate one operator-set byte at a time, remembering the
/// longest prefix that spelled an operator together with the position just
/// past it; when the run ends it yields that operator, or fails if no prefix
/// matched.
pub open spec fn op_scan(p: Seq<u8>, start: int, k: int, best: Option<(Operator, int)>) -> Result<
    (Token, int),
    LexError,
>
    decreases p.len() - k
        when 0 <= start <= k <= p.len()
{
    if k < p.len() && is_op_char(p[k]) {
        let best2 = match op_of(p.subrange(start, k + 1)) {
            Some(op) => Some((op, k + 1)),
            None => best,
        };
        op_scan(p, start, k + 1, best2)
    } else {
        match best {
            Some((op, e)) => Ok((Token::Op(op), e)),
            None => Err(LexError::InvalidOperator),
        }
    }
}

/// The single-token lexer: the next token of `p` starting at position `i`,
/// together with the cursor position after it, or the lex error. Whitespace
/// is skipped first; a `#` comment runs to the next newline and is skipped
/// entirely; reaching the end of the buffer yields `End`.
pub open spec fn spec_next(p: Seq<u8>, i: int) -> Result<(Token, int), LexError>
    decreases p.len() - i
        when 0 <= i <= p.len()
{
    let j = skip_ws(p, i);
    if j == p.len() {
        Ok((Token::End, j))
    } else if p[j] == 35 {  // '#': comment to end of line
        let nl = find_byte(p, j, 10);
        if nl == p.len() {
            Err(LexError::UnterminatedComment)
        } else {
            proof {
                lemma_skip_ws(p, i);
                lemma_find_byte(p, j, 10);
            }
            spec_next(p, nl)
        }
    } else if is_digit(p[j]) {
        let e = scan_digits(p, j);
        let v = digits_val(p.subrange(j, e));
        if v > u64::MAX {
            Err(LexError::IntegerOverflow)
        } else {
            Ok((Token::Int(v as u64), e))
        }
    } else if is_alpha(p[j]) {
        let e = scan_ident(p, j);
        let span = p.subrange(j, e);
        match keyword_of(span) {
            Some(k) => Ok((Token::Key(k), e)),
            None => if valid_utf8(span) {
                Ok((Token::Ident(decode_utf8(span)), e))
            } else {
                Err(LexError::InvalidEncoding)
            },
        }
    } else if p[j] == 34 {  // '"': string literal
        let q = find_byte(p, j + 1, 34);
        if q == p.len() {
            Err(LexError::UnterminatedString)
        } else {
            let span = p.subrange(j + 1, q);
            if valid_utf8(span) {
                Ok((Token::StrLit(decode_utf8(span)), q + 1))
            } else {
                Err(LexError::InvalidEncoding)
            }
        }
    } else if is_op_char(p[j]) {
        op_scan(p, j, j, None)
    } else {
        Err(LexError::InvalidCharacter(p[j]))
    }
}

/// Bounds of the whitespace skip: it never moves backwards, never leaves the
/// buffer, and stops on a non-whitespace byte.
pub proof fn lemma_skip_ws(p: Seq<u8>, i: int)
    requires
        0 <= i <= p.len(),
    ensures
        i <= skip_ws(p, i) <= p.len(),
        skip_ws(p, i) < p.len() ==> !is_space(p[skip_ws(p, i)]),
    decreases p.len() - i,
{
    if i < p.len() && is_space(p[i]) {
        lemma_skip_ws(p, i + 1);
    }
}

/// Bounds of the byte search: the result is the first occurrence of `b` at
/// or after `i`, or the length of the input.
pub proof fn lemma_find_byte(p: Seq<u8>, i: int, b: u8)
    requires
        0 <= i <= p.len(),
    ensures
        i <= find_byte(p, i, b) <= p.len(),
        find_byte(p, i, b) < p.len() ==> p[find_byte(p, i, b)] == b,
        forall|m: int| i <= m < find_byte(p, i, b) ==> p[m] != b,
    decreases p.len() - i,
{
    if i < p.len() && p[i] != b {
        lemma_find_byte(p, i + 1, b);
    }
}

/// Bounds of the digit scan.
pub proof fn lemma_scan_digits(p: Seq<u8>, i: int)
    requires
        0 <= i <= p.len(),
    ensures
        i <= scan_digits(p, i) <= p.len(),
        scan_digits(p, i) < p.len() ==> !is_digit(p[scan_digits(p, i)]),
        forall|m: int| i <= m < scan_digits(p, i) ==> is_digit(p[m]),
    decreases p.len() - i,
{
    if i < p.len() && is_digit(p[i]) {
        lemma_scan_digits(p, i + 1);
    }
}

/// Bounds of the identifier scan.
pub proof fn lemma_scan_ident(p: Seq<u8>, i: int)
    requires
        0 <= i <= p.len(),
    ensures
        i <= scan_ident(p, i) <= p.len(),
        scan_ident(p, i) < p.len() ==> !is_ident_char(p[scan_ident(p, i)]),
        forall|m: int| i <= m < scan_ident(p, i) ==> is_ident_char(p[m]),
    decreases p.len() - i,
{
    if i < p.len() && is_ident_char(p[i]) {
        lemma_scan_ident(p, i + 1);
    }
}

/// Bounds of the operator scan: on success the cursor lands past the match,
/// strictly beyond `start` and within the buffer.
pub proof fn lemma_op_scan(p: Seq<u8>, start: int, k: int, best: Option<(Operator, int)>)
    requires
        0 <= start <= k <= p.len(),
        best matches Some(b) ==> start < b.1 <= k,
    ensures
        op_scan(p, start, k, best) matches Ok(r) ==> start < r.1 <= p.len() && r.0 is Op,
    decreases p.len() - k,
{
    if k < p.len() && is_op_char(p[k]) {
        let best2 = match op_of(p.subrange(start, k + 1)) {
            Some(op) => Some((op, k + 1)),
            None => best,
        };
        lemma_op_scan(p, start, k + 1, best2);
    }
}

/// Progress of the lexer: the cursor never moves backwards or out of the
/// buffer; any token other than `End` consumes at least one byte; `End` is
/// produced exactly at the end of the buffer.
pub proof fn lemma_spec_next_progress(p: Seq<u8>, i: int)
    requires
        0 <= i <= p.len(),
    ensures
        spec_next(p, i) matches Ok(r) ==> {
            &&& i <= r.1 <= p.len()
            &&& (!(r.0 is End) ==> r.1 >= i + 1)
            &&& (r.0 is End ==> r.1 == p.len())
        },
    decreases p.len() - i,
{
    lemma_skip_ws(p, i);
    let j = skip_ws(p, i);
    if j == p.len() {
    } else if p[j] == 35 {
        lemma_find_byte(p, j, 10);
        let nl = find_byte(p, j, 10);
        assert(nl != j);
        if nl < p.len() {
            lemma_spec_next_progress(p, nl);
            assert(spec_next(p, i) == spec_next(p, nl));
        }
    } else if is_digit(p[j]) {
        lemma_scan_digits(p, j);
        assert(scan_digits(p, j) == scan_digits(p, j + 1));
    } else if is_alpha(p[j]) {
        lemma_scan_ident(p, j);
        assert(scan_ident(p, j) == scan_ident(p, j + 1));
    } else if p[j] == 34 {
        lemma_find_byte(p, j + 1, 34);
    } else if is_op_char(p[j]) {
        lemma_op_scan(p, j, j, None);
    }
}

/// Value of one more digit appended to a digit string.
pub proof fn lemma_digits_val_step(p: Seq<u8>, i: int, k: int)
    requires
        0 <= i <= k < p.len(),
    ensures
        digits_val(p.subrange(i, k + 1)) == digits_val(p.subrange(i, k)) * 10 + (p[k] - 48),
{
    assert(p.subrange(i, k + 1).drop_last() =~= p.subrange(i, k));
    assert(p.subrange(i, k + 1).last() == p[k]);
}

/// A digit string's value is non-negative.
pub proof fn lemma_digits_val_nonneg(p: Seq<u8>, i: int, k: int)
    requires
        0 <= i <= k <= p.len(),
        forall|m: int| i <= m < k ==> is_digit(p[m]),
    ensures
        digits_val(p.subrange(i, k)) >= 0,
    decreases k - i,
{
    if k > i {
        lemma_digits_val_nonneg(p, i, k - 1);
        lemma_digits_val_step(p, i, k - 1);
    }
}

/// Appending digits never decreases the value of a digit string.
pub proof fn lemma_digits_val_prefix(p: Seq<u8>, i: int, k: int, e: int)
    requires
        0 <= i <= k <= e <= p.len(),
        forall|m: int| i <= m < e ==> is_digit(p[m]),
    ensures
        digits_val(p.subrange(i, k)) <= digits_val(p.subrange(i, e)),
    decreases e - k,
{
    if e > k {
        lemma_digits_val_prefix(p, i, k, e - 1);
        lemma_digits_val_nonneg(p, i, e - 1);
        lemma_digits_val_step(p, i, e - 1);
    }
}

/// Decodes a byte range as UTF-8 text.
///
/// Relies on std's `str::from_utf8`: it succeeds exactly on the byte
/// sequences that are valid UTF-8, and then yields their decoded
/// characters, as `vstd::utf8` defines both notions.
#[verifier::external_body]
fn decode_bytes(p: &Vec<u8>, start: usize, end: usize) -> (r: Option<String>)
    requires
        start <= end <= p.len(),
    ensures
        r is Some <==> valid_utf8(p@.subrange(start as int, end as int)),
        r matches Some(s) ==> s@ == decode_utf8(p@.subrange(start as int, end as int)),
{
    std::str::from_utf8(&p[start..end]).ok().map(|s| s.to_string())
}

/// Executable mirror of the keyword table over a byte range.
fn keyword_check(p: &Vec<u8>, start: usize, end: usize) -> (r: Option<Keyword>)
    requires
        start <= end <= p.len(),
    ensures
        r == keyword_of(p@.subrange(start as int, end as int)),
{
    let ghost span = p@.subrange(start as int, end as int);
    let n = end - start;
    proof {
        assert(span.len() == n);
        assert(forall|m: int| 0 <= m < n ==> span[m] == p@[start + m]);
    }
    if n == 2 {
        let b0 = p[start];
        let b1 = p[start + 1];
        if b0 == 105 && b1 == 102 {
            Some(Keyword::If)
        } else if b0 == 102 && b1 == 110 {
            Some(Keyword::Function)
        } else {
            None
        }
    } else if n == 4 {
        let b0 = p[start];
        let b1 = p[start + 1];
        let b2 = p[start + 2];
        let b3 = p[start + 3];
        if b0 == 101 && b1 == 108 && b2 == 115 && b3 == 101 {
            Some(Keyword::Else)
        } else {
            None
        }
    } else if n == 5 {
        let b0 = p[start];
        let b1 = p[start + 1];
        let b2 = p[start + 2];
        let b3 = p[start + 3];
        let b4 = p[start + 4];
        if b0 == 119 && b1 == 104 && b2 == 105 && b3 == 108 && b4 == 101 {
            Some(Keyword::While)
        } else {
            None
        }
    } else if n == 6 {
        let b0 = p[start];
        let b1 = p[start + 1];
        let b2 = p[start + 2];
        let b3 = p[start + 3];
        let b4 = p[start + 4];
        let b5 = p[start + 5];
        if b0 == 115 && b1 == 116 && b2 == 114 && b3 == 117 && b4 == 99 && b5 == 116 {
            Some(Keyword::Struct)
        } else if b0 == 114 && b1 == 101 && b2 == 116 && b3 == 117 && b4 == 114 && b5 == 110 {
            Some(Keyword::Return)
        } else {
            None
        }
    } else {
        None
    }
}

/// Executable mirror of the operator table over a byte range.
fn op_lookup(p: &Vec<u8>, start: usize, end: usize) -> (r: Option<Operator>)
    requires
        start < end <= p.len(),
    ensures
        r == op_of(p@.subrange(start as int, end as int)),
{
    let ghost span = p@.subrange(start as int, end as int);
    let n = end - start;
    proof {
        assert(span.len() == n);
        assert(forall|m: int| 0 <= m < n ==> span[m] == p@[start + m]);
    }
    if n == 1 {
        let b0 = p[start];
        if b0 == 43 {
            Some(Operator::Plus)
        } else if b0 == 45 {
            Some(Operator::Minus)
        } else if b0 == 42 {
            Some(Operator::Asterisk)
        } else if b0 == 38 {
            Some(Operator::Ampersand)
        } else if b0 == 40 {
            Some(Operator::OpenParenthesis)
        } else if b0 == 41 {
            Some(Operator::CloseParenthesis)
        } else if b0 == 123 {
            Some(Operator::OpenBrace)
        } else if b0 == 125 {
            Some(Operator::CloseBrace)
        } else if b0 == 60 {
            Some(Operator::LessThan)
        } else if b0 == 62 {
            Some(Operator::GreaterThan)
        } else if b0 == 59 {
            Some(Operator::Semicolon)
        } else if b0 == 58 {
            Some(Operator::Colon)
        } else if b0 == 61 {
            Some(Operator::Equals)
        } else if b0 == 44 {
            Some(Operator::Comma)
        } else if b0 == 33 {
            Some(Operator::Exclaim)
        } else if b0 == 46 {
            Some(Operator::Dot)
        } else {
            None
        }
    } else if n == 2 {
        let b0 = p[start];
        let b1 = p[start + 1];
        if b0 == 45 && b1 == 62 {
            Some(Operator::Arrow)
        } else if b0 == 58 && b1 == 61 {
            Some(Operator::ColonEquals)
        } else if b0 == 61 && b1 == 61 {
            Some(Operator::DoubleEquals)
        } else if b0 == 33 && b1 == 61 {
            Some(Operator::ExclaimEquals)
        } else if b0 == 38 && b1 == 38 {
            Some(Operator::DoubleAmpersand)
        } else if b0 == 124 && b1 == 124 {
            Some(Operator::DoubleBar)
        } else {
            None
        }
    } else {
        None
    }
}

/// The lexer: the input buffer and a monotonically non-decreasing cursor.
pub struct Lexer {
    program: Vec<u8>,
    index: usize,
}

impl Lexer {
    /// The input byte sequence, unchanged for the lexer's lifetime.
    pub closed spec fn input(self) -> Seq<u8> {
        self.program@
    }

    /// The cursor: the position of the next unread byte.
    pub closed spec fn cursor(self) -> int {
        self.index as int
    }

    /// Well-formedness: the cursor stays within the buffer bounds.
    pub open spec fn wf(self) -> bool {
        0 <= self.cursor() <= self.input().len()
    }

    pub fn new(program: Vec<u8>) -> (r: Lexer)
        ensures
            r.wf(),
            r.input() == program@,
            r.cursor() == 0,
    {
        Lexer { program, index: 0 }
    }

    fn at_space(&self) -> (r: bool)
        requires
            self.wf(),
        ensures
            r == (self.cursor() < self.input().len() && is_space(self.input()[self.cursor()])),
    {
        if self.index < self.program.len() {
            let b = self.program[self.index];
            b == 32 || b == 9 || b == 10 || b == 12 || b == 13
        } else {
            false
        }
    }

    fn at_ident_char(&self) -> (r: bool)
        requires
            self.wf(),
        ensures
            r == (self.cursor() < self.input().len() && is_ident_char(
                self.input()[self.cursor()],
            )),
    {
        if self.index < self.program.len() {
            let b = self.program[self.index];
            (65 <= b && b <= 90) || (97 <= b && b <= 122) || (48 <= b && b <= 57) || b == 95
        } else {
            false
        }
    }

    fn at_digit(&self) -> (r: bool)
        requires
            self.wf(),
        ensures
            r == (self.cursor() < self.input().len() && is_digit(self.input()[self.cursor()])),
    {
        if self.index < self.program.len() {
            let b = self.program[self.index];
            48 <= b && b <= 57
        } else {
            false
        }
    }

    fn at_op_char(&self) -> (r: bool)
        requires
            self.wf(),
        ensures
            r == (self.cursor() < self.input().len() && is_op_char(self.input()[self.cursor()])),
    {
        if self.index < self.program.len() {
            let b = self.program[self.index];
            b == 43 || b == 45 || b == 42 || b == 38 || b == 40 || b == 41 || b == 123 || b == 125
                || b == 60 || b == 62 || b == 59 || b == 58 || b == 61 || b == 44 || b == 33
                || b == 124 || b == 46
        } else {
            false
        }
    }

    /// True while scanning has not yet reached the byte `b` nor the end.
    fn scanning_for(&self, b: u8) -> (r: bool)
        requires
            self.wf(),
        ensures
            r == (self.cursor() < self.input().len() && self.input()[self.cursor()] != b),
    {
        self.index < self.program.len() && self.program[self.index] != b
    }

    /// The next lexeme of the input, as [`spec_next`] fixes it. On success
    /// the cursor lands exactly past the consumed token; after an error the
    /// lexer is not used further and its cursor is only known to have moved
    /// forward within bounds.
    pub fn next(&mut self) -> (r: Result<Lexeme, LexError>)
        requires
            old(self).wf(),
        ensures
            final(self).wf(),
            final(self).input() == old(self).input(),
            (match spec_next(old(self).input(), old(self).cursor()) {
                Ok(tj) => r matches Ok(l) && l@ == tj.0 && final(self).cursor() == tj.1,
                Err(e) => r matches Err(e2) && e2 == e && old(self).cursor() <= final(self).cursor(),
            }),
    {
        let ghost p = self.program@;
        let ghost i0 = self.index as int;
        // Skip whitespace and whole comment lines until a token can start.
        loop
            invariant
                self.wf(),
                self.program@ == p,
                p == old(self).input(),
                i0 == old(self).cursor(),
                0 <= i0 <= self.index as int,
                spec_next(p, i0) == spec_next(p, self.index as int),
            ensures
                self.wf(),
                self.program@ == p,
                0 <= i0 <= self.index as int,
                spec_next(p, i0) == spec_next(p, self.index as int),
                skip_ws(p, self.index as int) == self.index as int,
                self.index as int == p.len() || p[self.index as int] != 35,
            decreases p.len() - self.index as int,
        {
            let ghost w0 = self.index as int;
            while self.at_space()
                invariant
                    self.wf(),
                    self.program@ == p,
                    0 <= w0 <= self.index as int,
                    skip_ws(p, w0) == skip_ws(p, self.index as int),
                decreases p.len() - self.index as int,
            {
                assert(self.index < self.program.len());
                self.index += 1;
            }
            assert(skip_ws(p, self.index as int) == self.index as int);
            assert(spec_next(p, w0) == spec_next(p, self.index as int));
            if self.index >= self.program.len() {
                break;
            }
            if self.program[self.index] != 35 {
                break;
            }
            // A comment: scan to the newline, then go round again.
            let ghost c0 = self.index as int;
            assert(skip_ws(p, c0) == c0);
            while self.scanning_for(10)
                invariant
                    self.wf(),
                    self.program@ == p,
                    0 <= c0 <= self.index as int,
                    p[c0] == 35,
                    skip_ws(p, c0) == c0,
                    find_byte(p, c0, 10) == find_byte(p, self.index as int, 10),
                decreases p.len() - self.index as int,
            {
                assert(self.index < self.program.len());
                self.index += 1;
            }
            assert(find_byte(p, c0, 10) == self.index as int);
            if self.index >= self.program.len() {
                return Err(LexError::UnterminatedComment);
            }
            assert(self.index as int > c0);
            assert(spec_next(p, c0) == spec_next(p, self.index as int));
        }
        if self.index >= self.program.len() {
            return Ok(Lexeme::Eof);
        }
        let b = self.program[self.index];
        if 48 <= b && b <= 57 {
            self.integer()
        } else if (65 <= b && b <= 90) || (97 <= b && b <= 122) {
            self.identifier()
        } else if b == 34 {
            self.string_literal()
        } else if b == 43 || b == 45 || b == 42 || b == 38 || b == 40 || b == 41 || b == 123
            || b == 125 || b == 60 || b == 62 || b == 59 || b == 58 || b == 61 || b == 44 || b == 33
            || b == 124 || b == 46 {
            self.operator()
        } else {
            Err(LexError::InvalidCharacter(b))
        }
    }

    /// An integer literal: a maximal digit run, accumulated with checked
    /// arithmetic; a value beyond `u64::MAX` is an overflow error.
    #[verifier::loop_isolation(false)]
    fn integer(&mut self) -> (r: Result<Lexeme, LexError>)
        requires
            old(self).wf(),
            old(self).cursor() < old(self).input().len(),
            is_digit(old(self).input()[old(self).cursor()]),
        ensures
            final(self).wf(),
            final(self).input() == old(self).input(),
            (match spec_next(old(self).input(), old(self).cursor()) {
                Ok(tj) => r matches Ok(l) && l@ == tj.0 && final(self).cursor() == tj.1,
                Err(e) => r matches Err(e2) && e2 == e && old(self).cursor() <= final(self).cursor(),
            }),
    {
        let ghost p = self.program@;
        let ghost i0 = self.index as int;
        let ghost e = scan_digits(p, i0);
        proof {
            lemma_scan_digits(p, i0);
            assert(skip_ws(p, i0) == i0);
        }
        let mut val: u64 = 0;
        while self.at_digit()
            invariant
                self.wf(),
                self.program@ == p,
                i0 <= self.index as int <= e <= p.len(),
                e == scan_digits(p, i0),
                forall|m: int| i0 <= m < e ==> is_digit(p[m]),
                val == digits_val(p.subrange(i0, self.index as int)),
            decreases p.len() - self.index as int,
        {
            let ghost k = self.index as int;
            assert(self.index < self.program.len());
            proof {
                if k >= e {
                    lemma_scan_digits(p, i0);
                    assert(false);
                }
            }
            let b = self.program[self.index];
            let d = (b - 48) as u64;
            proof {
                lemma_digits_val_step(p, i0, k);
                lemma_digits_val_nonneg(p, i0, k);
            }
            let v1 = match val.checked_mul(10) {
                Some(v1) => v1,
                None => {
                    proof {
                        lemma_digits_val_prefix(p, i0, k + 1, e);
                    }
                    return Err(LexError::IntegerOverflow);
                },
            };
            let v2 = match v1.checked_add(d) {
                Some(v2) => v2,
                None => {
                    proof {
                        lemma_digits_val_prefix(p, i0, k + 1, e);
                    }
                    return Err(LexError::IntegerOverflow);
                },
            };
            val = v2;
            self.index += 1;
        }
        proof {
            if (self.index as int) < e {
                assert(is_digit(p[self.index as int]));
                assert(false);
            }
            lemma_scan_digits(p, i0);
        }
        Ok(Lexeme::Integer(val))
    }

    /// An identifier or keyword: a maximal run of letters, digits and
    /// underscores, looked up in the keyword table.
    #[verifier::loop_isolation(false)]
    fn identifier(&mut self) -> (r: Result<Lexeme, LexError>)
        requires
            old(self).wf(),
            old(self).cursor() < old(self).input().len(),
            is_alpha(old(self).input()[old(self).cursor()]),
        ensures
            final(self).wf(),
            final(self).input() == old(self).input(),
            (match spec_next(old(self).input(), old(self).cursor()) {
                Ok(tj) => r matches Ok(l) && l@ == tj.0 && final(self).cursor() == tj.1,
                Err(e) => r matches Err(e2) && e2 == e && old(self).cursor() <= final(self).cursor(),
            }),
    {
        let ghost p = self.program@;
        let ghost i0 = self.index as int;
        proof {
            assert(skip_ws(p, i0) == i0);
            assert(!is_digit(p[i0]));
        }
        let start = self.index;
        while self.at_ident_char()
            invariant
                self.wf(),
                self.program@ == p,
                i0 <= self.index as int,
                scan_ident(p, i0) == scan_ident(p, self.index as int),
            decreases p.len() - self.index as int,
        {
            assert(self.index < self.program.len());
            self.index += 1;
        }
        assert(scan_ident(p, i0) == self.index as int);
        match keyword_check(&self.program, start, self.index) {
            Some(k) => Ok(Lexeme::Keyword(k)),
            None => match decode_bytes(&self.program, start, self.index) {
                Some(s) => Ok(Lexeme::Identifier(s)),
                None => Err(LexError::InvalidEncoding),
            },
        }
    }

    /// A string literal: everything between the quotes, verbatim, decoded
    /// as UTF-8. A missing closing quote is an explicit error.
    #[verifier::loop_isolation(false)]
    fn string_literal(&mut self) -> (r: Result<Lexeme, LexError>)
        requires
            old(self).wf(),
            old(self).cursor() < old(self).input().len(),
            old(self).input()[old(self).cursor()] == 34,
        ensures
            final(self).wf(),
            final(self).input() == old(self).input(),
            (match spec_next(old(self).input(), old(self).cursor()) {
                Ok(tj) => r matches Ok(l) && l@ == tj.0 && final(self).cursor() == tj.1,
                Err(e) => r matches Err(e2) && e2 == e && old(self).cursor() <= final(self).cursor(),
            }),
    {
        let ghost p = self.program@;
        let ghost i0 = self.index as int;
        proof {
            assert(skip_ws(p, i0) == i0);
            assert(!is_digit(p[i0]) && !is_alpha(p[i0]));
        }
        assert(self.index < self.program.len());
        self.index += 1;
        let start = self.index;
        while self.scanning_for(34)
            invariant
                self.wf(),
                self.program@ == p,
                i0 + 1 <= self.index as int,
                find_byte(p, i0 + 1, 34) == find_byte(p, self.index as int, 34),
            decreases p.len() - self.index as int,
        {
            assert(self.index < self.program.len());
            self.index += 1;
        }
        assert(find_byte(p, i0 + 1, 34) == self.index as int);
        if self.index >= self.program.len() {
            return Err(LexError::UnterminatedString);
        }
        let e = self.index;
        self.index += 1;
        match decode_bytes(&self.program, start, e) {
            Some(s) => Ok(Lexeme::StringLiteral(s)),
            None => Err(LexError::InvalidEncoding),
        }
    }

    /// An operator, by maximal munch: scan the operator-character run,
    /// remember the longest prefix that spells an operator, and rewind to
    /// just past it.
    #[verifier::loop_isolation(false)]
    fn operator(&mut self) -> (r: Result<Lexeme, LexError>)
        requires
            old(self).wf(),
            old(self).cursor() < old(self).input().len(),
            is_op_char(old(self).input()[old(self).cursor()]),
        ensures
            final(self).wf(),
            final(self).input() == old(self).input(),
            (match spec_next(old(self).input(), old(self).cursor()) {
                Ok(tj) => r matches Ok(l) && l@ == tj.0 && final(self).cursor() == tj.1,
                Err(e) => r matches Err(e2) && e2 == e && old(self).cursor() <= final(self).cursor(),
            }),
    {
        let ghost p = self.program@;
        let ghost i0 = self.index as int;
        proof {
            assert(skip_ws(p, i0) == i0);
            assert(!is_digit(p[i0]) && !is_alpha(p[i0]) && p[i0] != 34 && p[i0] != 35);
        }
        let start = self.index;
        let mut best: Option<(Operator, usize)> = None;
        while self.at_op_char()
            invariant
                self.wf(),
                self.program@ == p,
                i0 <= self.index as int,
                op_scan(p, i0, i0, None) == op_scan(
                    p,
                    i0,
                    self.index as int,
                    match best {
                        Some(pr) => Some((pr.0, pr.1 as int)),
                        None => None,
                    },
                ),
                best matches Some(pr) ==> i0 < pr.1 <= self.index as int,
                start == i0,
            decreases p.len() - self.index as int,
        {
            assert(self.index < self.program.len());
            let cand = op_lookup(&self.program, start, self.index + 1);
            if let Some(op) = cand {
                best = Some((op, self.index + 1));
            }
            self.index += 1;
        }
        match best {
            Some(pr) => {
                self.index = pr.1;
                Ok(Lexeme::Operator(pr.0))
            },
            None => Err(LexError::InvalidOperator),
        }
    }
}

} // verus!
