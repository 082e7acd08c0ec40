//! General laws of the front end, proved once and for all inputs: digit
//! strings lex to their exact value, keyword spellings always lex as
//! keywords, and a comment line has no effect on the token stream or on
//! the parse.

use vstd::prelude::*;
use crate::grammar::sp_parse;
use crate::lexer::{
    digits_val, find_byte, lemma_find_byte, lemma_scan_digits, lemma_scan_ident, scan_digits,
    scan_ident, skip_ws, spec_next,
};
use crate::stream::{token_stream, token_stream_from, TokenStream};
use crate::tokens::{
    is_digit, is_ident_char, keyword_of, keyword_spelling, Keyword, LexError, Operator, Token,
};

verus! {

/// A non-empty string of decimal digits lexes to the exact integer it
/// denotes whenever that value fits in a `u64`, and to the dedicated
/// overflow error whenever it does not.
pub proof fn lemma_digit_string_lexing(p: Seq<u8>)
    requires
        p.len() > 0,
        forall|i: int| 0 <= i < p.len() ==> is_digit(#[trigger] p[i]),
    ensures
        digits_val(p) <= u64::MAX ==> spec_next(p, 0) == Ok::<(Token, int), LexError>(
            (Token::Int(digits_val(p) as u64), p.len() as int),
        ),
        digits_val(p) > u64::MAX ==> spec_next(p, 0) == Err::<(Token, int), LexError>(
            LexError::IntegerOverflow,
        ),
{
    assert(skip_ws(p, 0) == 0);
    lemma_scan_digits(p, 0);
    assert(scan_digits(p, 0) == p.len());
    assert(p.subrange(0, p.len() as int) =~= p);
}

/// A keyword spelling, wherever it starts a token and is not followed by
/// a further identifier character, always lexes as that keyword — never
/// as an identifier.
pub proof fn lemma_keyword_lexing(p: Seq<u8>, i: int, kw: Keyword)
    requires
        0 <= i,
        i + keyword_spelling(kw).len() <= p.len(),
        p.subrange(i, i + keyword_spelling(kw).len() as int) =~= keyword_spelling(kw),
        i + keyword_spelling(kw).len() == p.len() || !is_ident_char(
            p[i + keyword_spelling(kw).len()],
        ),
    ensures
        spec_next(p, i) == Ok::<(Token, int), LexError>(
            (Token::Key(kw), i + keyword_spelling(kw).len()),
        ),
{
    let w = keyword_spelling(kw);
    let e = i + w.len();
    assert(forall|d: int| 0 <= d < w.len() ==> p[i + d] == #[trigger] w[d]);
    assert(skip_ws(p, i) == i);
    lemma_scan_ident(p, i);
    assert forall|m: int| i <= m < e implies is_ident_char(#[trigger] p[m]) by {
        assert(p[m] == w[m - i]);
    }
    assert(scan_ident(p, i) == e);
    assert(p.subrange(i, e) =~= w);
    assert(keyword_of(w) == Some(kw));
}

/// The operator table inverts the spellings: each spelling maps to
/// exactly its own tag.
pub proof fn lemma_op_table_inverse(op: Operator)
    ensures
        crate::tokens::op_of(crate::tokens::op_spelling(op)) == Some(op),
{
}

/// The operator-character set is exactly the union of the bytes that
/// appear in the operator spellings.
pub proof fn lemma_op_char_set(b: u8)
    ensures
        crate::tokens::is_op_char(b) <==> exists|op: Operator, i: int|
            0 <= i < crate::tokens::op_spelling(op).len() && crate::tokens::op_spelling(op)[i]
                == b,
{
    if crate::tokens::is_op_char(b) {
        if b == 43 {
            assert(crate::tokens::op_spelling(Operator::Plus)[0] == b);
        } else if b == 45 {
            assert(crate::tokens::op_spelling(Operator::Minus)[0] == b);
        } else if b == 42 {
            assert(crate::tokens::op_spelling(Operator::Asterisk)[0] == b);
        } else if b == 38 {
            assert(crate::tokens::op_spelling(Operator::Ampersand)[0] == b);
        } else if b == 40 {
            assert(crate::tokens::op_spelling(Operator::OpenParenthesis)[0] == b);
        } else if b == 41 {
            assert(crate::tokens::op_spelling(Operator::CloseParenthesis)[0] == b);
        } else if b == 123 {
            assert(crate::tokens::op_spelling(Operator::OpenBrace)[0] == b);
        } else if b == 125 {
            assert(crate::tokens::op_spelling(Operator::CloseBrace)[0] == b);
        } else if b == 60 {
            assert(crate::tokens::op_spelling(Operator::LessThan)[0] == b);
        } else if b == 62 {
            assert(crate::tokens::op_spelling(Operator::GreaterThan)[0] == b);
        } else if b == 59 {
            assert(crate::tokens::op_spelling(Operator::Semicolon)[0] == b);
        } else if b == 58 {
            assert(crate::tokens::op_spelling(Operator::Colon)[0] == b);
        } else if b == 61 {
            assert(crate::tokens::op_spelling(Operator::Equals)[0] == b);
        } else if b == 44 {
            assert(crate::tokens::op_spelling(Operator::Comma)[0] == b);
        } else if b == 33 {
            assert(crate::tokens::op_spelling(Operator::Exclaim)[0] == b);
        } else if b == 124 {
            assert(crate::tokens::op_spelling(Operator::DoubleBar)[0] == b);
        } else {
            assert(crate::tokens::op_spelling(Operator::Dot)[0] == b);
        }
    }
}

/// The suffix-equality hypothesis of the shift lemmas: the two inputs
/// agree, byte for byte, from the two positions to their ends.
pub open spec fn same_suffix(p1: Seq<u8>, i1: int, p2: Seq<u8>, i2: int) -> bool {
    &&& 0 <= i1 <= p1.len()
    &&& 0 <= i2 <= p2.len()
    &&& p1.len() - i1 == p2.len() - i2
    &&& forall|d: int| 0 <= d < p1.len() - i1 ==> #[trigger] p1[i1 + d] == p2[i2 + d]
}

/// Moving both cursors forward by the same amount preserves suffix
/// equality.
proof fn lemma_same_suffix_step(p1: Seq<u8>, i1: int, p2: Seq<u8>, i2: int, n: int)
    requires
        same_suffix(p1, i1, p2, i2),
        0 <= n <= p1.len() - i1,
    ensures
        same_suffix(p1, i1 + n, p2, i2 + n),
{
    assert forall|d: int| 0 <= d < p1.len() - (i1 + n) implies #[trigger] p1[(i1 + n) + d] == p2[(
    i2 + n) + d] by {
        assert(p1[i1 + (n + d)] == p2[i2 + (n + d)]);
    }
}

/// Subranges taken at matching offsets of equal suffixes are equal.
proof fn lemma_same_suffix_subrange(p1: Seq<u8>, i1: int, p2: Seq<u8>, i2: int, a: int, b: int)
    requires
        same_suffix(p1, i1, p2, i2),
        0 <= a <= b <= p1.len() - i1,
    ensures
        p1.subrange(i1 + a, i1 + b) =~= p2.subrange(i2 + a, i2 + b),
{
    assert forall|x: int| 0 <= x < b - a implies #[trigger] p1.subrange(i1 + a, i1 + b)[x]
        == p2.subrange(i2 + a, i2 + b)[x] by {
        assert(p1[i1 + (a + x)] == p2[i2 + (a + x)]);
    }
}

proof fn lemma_skip_ws_shift(p1: Seq<u8>, i1: int, p2: Seq<u8>, i2: int)
    requires
        same_suffix(p1, i1, p2, i2),
    ensures
        skip_ws(p1, i1) - i1 == skip_ws(p2, i2) - i2,
    decreases p1.len() - i1,
{
    if i1 < p1.len() {
        assert(p1[i1 + 0] == p2[i2 + 0]);
        assert(p1[i1] == p2[i2]);
        if crate::tokens::is_space(p1[i1]) {
            lemma_same_suffix_step(p1, i1, p2, i2, 1);
            lemma_skip_ws_shift(p1, i1 + 1, p2, i2 + 1);
        }
    }
}

proof fn lemma_find_byte_shift(p1: Seq<u8>, i1: int, p2: Seq<u8>, i2: int, b: u8)
    requires
        same_suffix(p1, i1, p2, i2),
    ensures
        find_byte(p1, i1, b) - i1 == find_byte(p2, i2, b) - i2,
    decreases p1.len() - i1,
{
    if i1 < p1.len() {
        assert(p1[i1 + 0] == p2[i2 + 0]);
        assert(p1[i1] == p2[i2]);
        if p1[i1] != b {
            lemma_same_suffix_step(p1, i1, p2, i2, 1);
            lemma_find_byte_shift(p1, i1 + 1, p2, i2 + 1, b);
        }
    }
}

proof fn lemma_scan_digits_shift(p1: Seq<u8>, i1: int, p2: Seq<u8>, i2: int)
    requires
        same_suffix(p1, i1, p2, i2),
    ensures
        scan_digits(p1, i1) - i1 == scan_digits(p2, i2) - i2,
    decreases p1.len() - i1,
{
    if i1 < p1.len() {
        assert(p1[i1 + 0] == p2[i2 + 0]);
        assert(p1[i1] == p2[i2]);
        if is_digit(p1[i1]) {
            lemma_same_suffix_step(p1, i1, p2, i2, 1);
            lemma_scan_digits_shift(p1, i1 + 1, p2, i2 + 1);
        }
    }
}

proof fn lemma_scan_ident_shift(p1: Seq<u8>, i1: int, p2: Seq<u8>, i2: int)
    requires
        same_suffix(p1, i1, p2, i2),
    ensures
        scan_ident(p1, i1) - i1 == scan_ident(p2, i2) - i2,
    decreases p1.len() - i1,
{
    if i1 < p1.len() {
        assert(p1[i1 + 0] == p2[i2 + 0]);
        assert(p1[i1] == p2[i2]);
        if is_ident_char(p1[i1]) {
            lemma_same_suffix_step(p1, i1, p2, i2, 1);
            lemma_scan_ident_shift(p1, i1 + 1, p2, i2 + 1);
        }
    }
}

proof fn lemma_op_scan_shift(
    p1: Seq<u8>,
    st1: int,
    k1: int,
    p2: Seq<u8>,
    st2: int,
    k2: int,
    best1: Option<(crate::tokens::Operator, int)>,
    best2: Option<(crate::tokens::Operator, int)>,
)
    requires
        same_suffix(p1, st1, p2, st2),
        st1 <= k1 <= p1.len(),
        st2 <= k2 <= p2.len(),
        k1 - st1 == k2 - st2,
        (match (best1, best2) {
            (None, None) => true,
            (Some(b1), Some(b2)) => b1.0 == b2.0 && b1.1 - st1 == b2.1 - st2,
            _ => false,
        }),
    ensures
        (match (crate::lexer::op_scan(p1, st1, k1, best1), crate::lexer::op_scan(
            p2,
            st2,
            k2,
            best2,
        )) {
            (Ok(r1), Ok(r2)) => r1.0 == r2.0 && r1.1 - st1 == r2.1 - st2,
            (Err(e1), Err(e2)) => e1 == e2,
            _ => false,
        }),
    decreases p1.len() - k1,
{
    if k1 < p1.len() {
        assert(p1[st1 + (k1 - st1)] == p2[st2 + (k2 - st2)]);
        assert(p1[k1] == p2[k2]);
    }
    if k1 < p1.len() && crate::tokens::is_op_char(p1[k1]) {
        lemma_same_suffix_subrange(p1, st1, p2, st2, 0, k1 + 1 - st1);
        assert(p1.subrange(st1, k1 + 1) =~= p2.subrange(st2, k2 + 1));
        let best1b = match crate::tokens::op_of(p1.subrange(st1, k1 + 1)) {
            Some(op) => Some((op, k1 + 1)),
            None => best1,
        };
        let best2b = match crate::tokens::op_of(p2.subrange(st2, k2 + 1)) {
            Some(op) => Some((op, k2 + 1)),
            None => best2,
        };
        lemma_op_scan_shift(p1, st1, k1 + 1, p2, st2, k2 + 1, best1b, best2b);
    }
}

/// The single-token lexer depends only on the input from the cursor on:
/// on inputs with equal suffixes it yields the same token or error, with
/// cursors advanced by the same amount.
pub proof fn lemma_spec_next_shift(p1: Seq<u8>, i1: int, p2: Seq<u8>, i2: int)
    requires
        same_suffix(p1, i1, p2, i2),
    ensures
        (match (spec_next(p1, i1), spec_next(p2, i2)) {
            (Ok(r1), Ok(r2)) => r1.0 == r2.0 && r1.1 - i1 == r2.1 - i2,
            (Err(e1), Err(e2)) => e1 == e2,
            _ => false,
        }),
    decreases p1.len() - i1,
{
    lemma_skip_ws_shift(p1, i1, p2, i2);
    crate::lexer::lemma_skip_ws(p1, i1);
    crate::lexer::lemma_skip_ws(p2, i2);
    let j1 = skip_ws(p1, i1);
    let j2 = skip_ws(p2, i2);
    lemma_same_suffix_step(p1, i1, p2, i2, j1 - i1);
    if j1 == p1.len() {
    } else {
        assert(p1[j1 + 0] == p2[j2 + 0]);
        assert(p1[j1] == p2[j2]);
        if p1[j1] == 35 {
            lemma_find_byte_shift(p1, j1, p2, j2, 10);
            crate::lexer::lemma_find_byte(p1, j1, 10);
            crate::lexer::lemma_find_byte(p2, j2, 10);
            let nl1 = find_byte(p1, j1, 10);
            let nl2 = find_byte(p2, j2, 10);
            if nl1 < p1.len() {
                lemma_same_suffix_step(p1, i1, p2, i2, nl1 - i1);
                lemma_spec_next_shift(p1, nl1, p2, nl2);
            }
        } else if is_digit(p1[j1]) {
            lemma_scan_digits_shift(p1, j1, p2, j2);
            let e1 = scan_digits(p1, j1);
            let e2 = scan_digits(p2, j2);
            crate::lexer::lemma_scan_digits(p1, j1);
            lemma_same_suffix_subrange(p1, i1, p2, i2, j1 - i1, e1 - i1);
            assert(p1.subrange(j1, e1) =~= p2.subrange(j2, e2));
        } else if crate::tokens::is_alpha(p1[j1]) {
            lemma_scan_ident_shift(p1, j1, p2, j2);
            let e1 = scan_ident(p1, j1);
            let e2 = scan_ident(p2, j2);
            crate::lexer::lemma_scan_ident(p1, j1);
            lemma_same_suffix_subrange(p1, i1, p2, i2, j1 - i1, e1 - i1);
            assert(p1.subrange(j1, e1) =~= p2.subrange(j2, e2));
        } else if p1[j1] == 34 {
            lemma_same_suffix_step(p1, i1, p2, i2, j1 + 1 - i1);
            lemma_find_byte_shift(p1, j1 + 1, p2, j2 + 1, 34);
            let q1 = find_byte(p1, j1 + 1, 34);
            let q2 = find_byte(p2, j2 + 1, 34);
            crate::lexer::lemma_find_byte(p1, j1 + 1, 34);
            crate::lexer::lemma_find_byte(p2, j2 + 1, 34);
            if q1 < p1.len() {
                lemma_same_suffix_subrange(p1, i1, p2, i2, j1 + 1 - i1, q1 - i1);
                assert(p1.subrange(j1 + 1, q1) =~= p2.subrange(j2 + 1, q2));
            }
        } else if crate::tokens::is_op_char(p1[j1]) {
            lemma_op_scan_shift(p1, j1, j1, p2, j2, j2, None, None);
        }
    }
}

/// The token stream depends only on the input from the cursor on.
pub proof fn lemma_token_stream_shift(p1: Seq<u8>, i1: int, p2: Seq<u8>, i2: int)
    requires
        same_suffix(p1, i1, p2, i2),
    ensures
        token_stream_from(p1, i1) == token_stream_from(p2, i2),
    decreases p1.len() - i1,
{
    lemma_spec_next_shift(p1, i1, p2, i2);
    crate::lexer::lemma_spec_next_progress(p1, i1);
    crate::lexer::lemma_spec_next_progress(p2, i2);
    match (spec_next(p1, i1), spec_next(p2, i2)) {
        (Ok(r1), Ok(r2)) => {
            if !(r1.0 is End) {
                lemma_same_suffix_step(p1, i1, p2, i2, r1.1 - i1);
                lemma_token_stream_shift(p1, r1.1, p2, r2.1);
                assert(token_stream_from(p1, i1).toks =~= token_stream_from(p2, i2).toks);
            } else {
                assert(token_stream_from(p1, i1).toks =~= token_stream_from(p2, i2).toks);
            }
        },
        (Err(_), Err(_)) => {
            assert(token_stream_from(p1, i1).toks =~= token_stream_from(p2, i2).toks);
        },
        _ => {},
    }
}

/// A line holding only a `#` comment — `#`, then any bytes that are
/// neither newline nor zero, then a newline — has no effect at all: the
/// input with the comment line in front has the same token stream, and
/// parses to the same result, as the input without it.
pub proof fn lemma_comment_line_ignored(c: Seq<u8>, p: Seq<u8>)
    requires
        forall|m: int| 0 <= m < c.len() ==> #[trigger] c[m] != 10 && c[m] != 0,
    ensures
        token_stream(seq![35u8] + c + seq![10u8] + p) == token_stream(p),
        sp_parse(token_stream(seq![35u8] + c + seq![10u8] + p), 0) == sp_parse(
            token_stream(p),
            0,
        ),
{
    let q = seq![35u8] + c + seq![10u8] + p;
    let nl = c.len() as int + 1;
    assert(q.len() == p.len() + c.len() + 2);
    assert(q[0] == 35);
    assert(forall|m: int| 1 <= m < nl ==> #[trigger] q[m] == c[m - 1]);
    assert(q[nl] == 10);
    assert(forall|d: int| 0 <= d < p.len() ==> #[trigger] q[nl + 1 + d] == p[d]);
    // the lexer at 0 sees the comment and continues at the newline
    assert(skip_ws(q, 0) == 0);
    crate::lexer::lemma_find_byte(q, 0, 10);
    assert(find_byte(q, 0, 10) == nl) by {
        if find_byte(q, 0, 10) < nl {
            assert(q[find_byte(q, 0, 10)] == 10);
        }
        if find_byte(q, 0, 10) > nl {
            assert(q[nl] == 10);
        }
    }
    assert(spec_next(q, 0) == spec_next(q, nl));
    assert(token_stream_from(q, 0) == token_stream_from(q, nl));
    // the newline is whitespace, so lexing from it equals lexing after it
    assert(skip_ws(q, nl) == skip_ws(q, nl + 1));
    assert(spec_next(q, nl) == spec_next(q, nl + 1));
    assert(token_stream_from(q, nl) == token_stream_from(q, nl + 1));
    // and from there the input is exactly `p`
    assert(same_suffix(q, nl + 1, p, 0));
    lemma_token_stream_shift(q, nl + 1, p, 0);
}

} // verus!
