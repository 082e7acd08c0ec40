//! The token stream: the sequence of tokens the lexer hands out for a
//! given input, possibly ended by a lex error. The parser's specification
//! reads tokens from this stream only, so two inputs that lex alike parse
//! alike.

use vstd::prelude::*;
use crate::tokens::{LexError, Token};
use crate::lexer::{lemma_spec_next_progress, spec_next};

verus! {

/// What lexing a whole input yields: the tokens before the end or the
/// first error, and that error if there is one. The `End` marker itself is
/// not stored; pulling past the last token yields `End` for ever (or the
/// error for ever, if the stream ends in one).
pub struct TokenStream {
    pub toks: Seq<Token>,
    pub err: Option<LexError>,
}

/// The stream of tokens obtained by lexing `p` from position `i` onwards.
pub open spec fn token_stream_from(p: Seq<u8>, i: int) -> TokenStream
    decreases p.len() - i
        when 0 <= i <= p.len()
{
    match spec_next(p, i) {
        Err(e) => TokenStream { toks: Seq::empty(), err: Some(e) },
        Ok(tj) => {
            if tj.0 is End {
                TokenStream { toks: Seq::empty(), err: None }
            } else {
                proof {
                    lemma_spec_next_progress(p, i);
                }
                let rest = token_stream_from(p, tj.1);
                TokenStream { toks: seq![tj.0] + rest.toks, err: rest.err }
            }
        },
    }
}

/// The token stream of a whole input.
pub open spec fn token_stream(p: Seq<u8>) -> TokenStream {
    token_stream_from(p, 0)
}

/// The result of the `k`-th pull from the stream. Pulls past the last
/// token yield `End`, or the stream's error once it is reached; the pull
/// at position `-1` is the parser's dummy lookahead before priming.
pub open spec fn pull(s: TokenStream, k: int) -> Result<Token, LexError> {
    if k < 0 {
        Ok(Token::End)
    } else if k < s.toks.len() {
        Ok(s.toks[k])
    } else {
        match s.err {
            None => Ok(Token::End),
            Some(e) => Err(e),
        }
    }
}

/// The lookahead token of a parser that has pulled `k` times: the result
/// of the last pull. Only consulted in states where that pull succeeded.
pub open spec fn cur(s: TokenStream, k: int) -> Token {
    match pull(s, k - 1) {
        Ok(t) => t,
        Err(_) => Token::End,
    }
}

/// The byte cursor of the lexer after `k` pulls starting from position
/// `i`; a failing pull leaves the cursor where the error was found.
pub open spec fn cursor_from(p: Seq<u8>, i: int, k: int) -> int
    decreases k
        when 0 <= i <= p.len() && k >= 0
{
    if k <= 0 {
        i
    } else {
        match spec_next(p, i) {
            Ok(tj) => {
                proof {
                    lemma_spec_next_progress(p, i);
                }
                cursor_from(p, tj.1, k - 1)
            },
            Err(_) => i,
        }
    }
}

/// Whether the first `k` pulls from position `i` all succeed.
pub open spec fn pulls_ok(p: Seq<u8>, i: int, k: int) -> bool
    decreases k
        when 0 <= i <= p.len() && k >= 0
{
    if k <= 0 {
        true
    } else {
        match spec_next(p, i) {
            Ok(tj) => {
                proof {
                    lemma_spec_next_progress(p, i);
                }
                pulls_ok(p, tj.1, k - 1)
            },
            Err(_) => false,
        }
    }
}

/// The byte cursor stays within the buffer.
pub proof fn lemma_cursor_bounds(p: Seq<u8>, i: int, k: int)
    requires
        0 <= i <= p.len(),
        k >= 0,
    ensures
        i <= cursor_from(p, i, k) <= p.len(),
    decreases k,
{
    if k > 0 {
        match spec_next(p, i) {
            Ok(tj) => {
                lemma_spec_next_progress(p, i);
                lemma_cursor_bounds(p, tj.1, k - 1);
            },
            Err(_) => {},
        }
    }
}

/// The bridge between the stream and the byte-level lexer: after `k`
/// successful pulls, the next pull from the stream is exactly what the
/// single-token lexer yields at the current byte cursor.
pub proof fn lemma_stream_pull(p: Seq<u8>, i: int, k: int)
    requires
        0 <= i <= p.len(),
        k >= 0,
        pulls_ok(p, i, k),
    ensures
        ({
            let s = token_stream_from(p, i);
            let c = cursor_from(p, i, k);
            match spec_next(p, c) {
                Ok(tj) => pull(s, k) == Ok::<Token, LexError>(tj.0),
                Err(e) => pull(s, k) == Err::<Token, LexError>(e),
            }
        }),
    decreases k,
{
    lemma_cursor_bounds(p, i, k);
    lemma_spec_next_progress(p, i);
    if k == 0 {
    } else {
        match spec_next(p, i) {
            Ok(tj) => {
                if tj.0 is End {
                    assert(tj.1 == p.len());
                    lemma_stream_pull(p, tj.1, k - 1);
                    assert(token_stream_from(p, tj.1) == token_stream_from(p, i));
                } else {
                    lemma_stream_pull(p, tj.1, k - 1);
                    let rest = token_stream_from(p, tj.1);
                    let s = token_stream_from(p, i);
                    assert(s.toks == seq![tj.0] + rest.toks);
                    assert(forall|m: int| 0 <= m < rest.toks.len() ==> s.toks[m + 1]
                        == rest.toks[m]);
                    assert(pull(s, k) == pull(rest, k - 1));
                }
            },
            Err(_) => {},
        }
    }
}

/// One more pull: if the lexer succeeds at the current cursor, the pull
/// count can grow by one and the cursor moves exactly past the new token;
/// if it fails, no further pull succeeds.
pub proof fn lemma_pulls_snoc(p: Seq<u8>, i: int, k: int)
    requires
        0 <= i <= p.len(),
        k >= 0,
        pulls_ok(p, i, k),
    ensures
        ({
            let c = cursor_from(p, i, k);
            match spec_next(p, c) {
                Ok(tj) => pulls_ok(p, i, k + 1) && cursor_from(p, i, k + 1) == tj.1,
                Err(_) => !pulls_ok(p, i, k + 1) && cursor_from(p, i, k + 1) == c,
            }
        }),
    decreases k,
{
    lemma_cursor_bounds(p, i, k);
    lemma_spec_next_progress(p, i);
    if k == 0 {
        match spec_next(p, i) {
            Ok(tj) => {
                assert(pulls_ok(p, i, 1) == pulls_ok(p, tj.1, 0));
                assert(cursor_from(p, i, 1) == cursor_from(p, tj.1, 0));
            },
            Err(_) => {
                assert(!pulls_ok(p, i, 1));
                assert(cursor_from(p, i, 1) == i);
            },
        }
    } else {
        match spec_next(p, i) {
            Ok(tj) => {
                lemma_pulls_snoc(p, tj.1, k - 1);
                assert(pulls_ok(p, i, k + 1) == pulls_ok(p, tj.1, k));
                assert(cursor_from(p, i, k + 1) == cursor_from(p, tj.1, k));
            },
            Err(_) => {},
        }
    }
}

/// The stream stores no `End` marker: every stored token is a real one.
pub proof fn lemma_stream_no_end(p: Seq<u8>, i: int)
    requires
        0 <= i <= p.len(),
    ensures
        forall|m: int| 0 <= m < token_stream_from(p, i).toks.len() ==> !(#[trigger] token_stream_from(
            p,
            i,
        ).toks[m] is End),
    decreases p.len() - i,
{
    lemma_spec_next_progress(p, i);
    match spec_next(p, i) {
        Ok(tj) => {
            if !(tj.0 is End) {
                lemma_stream_no_end(p, tj.1);
                let rest = token_stream_from(p, tj.1);
                assert(forall|m: int| 1 <= m < token_stream_from(p, i).toks.len()
                    ==> token_stream_from(p, i).toks[m] == rest.toks[m - 1]);
            }
        },
        Err(_) => {},
    }
}

} // verus!
