//! The laws of the scanner, stated over the model of `scanning` and proved
//! once and for all: scanning covers every input and terminates, runs are
//! never split, keywords always win, the terminal state is stable, and
//! whitespace between tokens is invisible.

use vstd::prelude::*;

use crate::scanning::{
    digit_len, first_token, first_token_len, is_digit_byte, is_letter_byte, is_whitespace_byte,
    keyword_or_ident, lemma_digit_len_props, lemma_digit_len_unique, lemma_first_token_len_bounds,
    lemma_letter_len_props, lemma_letter_len_unique, lemma_ws_len_props, lemma_ws_len_unique,
    letter_len, tokens, ws_len,
};
use crate::token::{chars_of, TokenModel};

verus! {

/// Total coverage: every input lexes to a well-defined, finite token
/// sequence; it is never empty, `Eof` is always reached, and it appears
/// exactly once, at the end — before that, every position holds some other
/// token. Together with `lemma_first_token_len_bounds` (each non-`Eof` token
/// consumes at least one byte) this is why pulling tokens never gets stuck.
pub proof fn lemma_total_coverage(s: Seq<u8>)
    ensures
        tokens(s).len() >= 1,
        tokens(s).last() == TokenModel::Eof,
        forall|i: int| 0 <= i < tokens(s).len() - 1 ==> !(#[trigger] tokens(s)[i] is Eof),
    decreases s.len(),
{
    lemma_first_token_len_bounds(s);
    if !(first_token(s) is Eof) {
        lemma_total_coverage(s.skip(first_token_len(s) as int));
    }
}

/// Maximal munch for identifiers: an identifier run at the front of the
/// input, delimited on the right by the end of input or a byte outside the
/// identifier alphabet, lexes as exactly one token spanning the whole run.
pub proof fn lemma_maximal_munch_ident(run: Seq<u8>, rest: Seq<u8>)
    requires
        run.len() >= 1,
        forall|i: int| 0 <= i < run.len() ==> is_letter_byte(run[i]),
        rest.len() == 0 || !is_letter_byte(rest[0]),
    ensures
        first_token(run + rest) == keyword_or_ident(chars_of(run)),
        first_token_len(run + rest) == run.len(),
        tokens(run + rest) == seq![keyword_or_ident(chars_of(run))] + tokens(rest),
{
    let s = run + rest;
    assert(s[0] == run[0]);
    lemma_ws_len_unique(s, 0);
    assert(s.skip(0) =~= s);
    assert forall|i: int| 0 <= i < run.len() implies is_letter_byte(s[i]) by {
        assert(s[i] == run[i]);
    }
    if rest.len() > 0 {
        assert(s[run.len() as int] == rest[0]);
    }
    lemma_letter_len_unique(s, run.len());
    assert(s.take(run.len() as int) =~= run);
    assert(s.skip(run.len() as int) =~= rest);
}

/// Maximal munch for numbers: a digit run at the front of the input,
/// delimited on the right by the end of input or a non-digit byte, lexes as
/// exactly one `Int` token spanning the whole run.
pub proof fn lemma_maximal_munch_number(run: Seq<u8>, rest: Seq<u8>)
    requires
        run.len() >= 1,
        forall|i: int| 0 <= i < run.len() ==> is_digit_byte(run[i]),
        rest.len() == 0 || !is_digit_byte(rest[0]),
    ensures
        first_token(run + rest) == TokenModel::Int(chars_of(run)),
        first_token_len(run + rest) == run.len(),
        tokens(run + rest) == seq![TokenModel::Int(chars_of(run))] + tokens(rest),
{
    let s = run + rest;
    assert(s[0] == run[0]);
    lemma_ws_len_unique(s, 0);
    assert(s.skip(0) =~= s);
    assert forall|i: int| 0 <= i < run.len() implies is_digit_byte(s[i]) by {
        assert(s[i] == run[i]);
    }
    if rest.len() > 0 {
        assert(s[run.len() as int] == rest[0]);
    }
    lemma_digit_len_unique(s, run.len());
    assert(s.take(run.len() as int) =~= run);
    assert(s.skip(run.len() as int) =~= rest);
}

/// Keyword precedence: an identifier spelling lexes as `Function` exactly
/// when it is `fn`, as `Let` exactly when it is `let`, and as an `Identifier`
/// carrying the unchanged text in every other case — keyword matching is
/// exact and case-sensitive.
pub proof fn lemma_keyword_precedence(text: Seq<char>)
    ensures
        keyword_or_ident(text) is Function <==> text == "fn"@,
        keyword_or_ident(text) is Let <==> text == "let"@,
        text != "fn"@ && text != "let"@ ==> keyword_or_ident(text) == TokenModel::Ident(text),
{
    reveal_strlit("fn");
    reveal_strlit("let");
    assert("fn"@.len() == 2 && "let"@.len() == 3);
}

/// Idempotent terminal state: when scanning reports the end of input, the
/// state it leaves behind reports the end of input again, without moving —
/// every later pull returns `Eof` as well.
pub proof fn lemma_eof_idempotent(s: Seq<u8>)
    requires
        first_token(s) is Eof,
    ensures
        first_token(s.skip(first_token_len(s) as int)) is Eof,
        first_token_len(s.skip(first_token_len(s) as int)) == 0,
{
    lemma_ws_len_props(s);
    assert(first_token_len(s) == s.len());
    let e = s.skip(s.len() as int);
    assert(e =~= Seq::<u8>::empty());
    lemma_ws_len_props(e);
    assert(e.skip(0) =~= e);
}

/// One leading whitespace byte is invisible: the token sequence of `s` is
/// that of `s` without its first byte.
proof fn lemma_tokens_ws_step(s: Seq<u8>)
    requires
        s.len() > 0,
        is_whitespace_byte(s[0]),
    ensures
        tokens(s) == tokens(s.skip(1)),
{
    let t = s.skip(1);
    assert(ws_len(s) == 1 + ws_len(t));
    lemma_ws_len_props(s);
    lemma_ws_len_props(t);
    assert(s.skip(ws_len(s) as int) =~= t.skip(ws_len(t) as int));
    assert(first_token(s) == first_token(t));
    assert(first_token_len(s) == 1 + first_token_len(t));
    lemma_first_token_len_bounds(s);
    lemma_first_token_len_bounds(t);
    if !(first_token(s) is Eof) {
        assert(s.skip(first_token_len(s) as int) =~= t.skip(first_token_len(t) as int));
    }
}

/// A whole run of leading whitespace is invisible to tokenization.
proof fn lemma_tokens_ws_prefix(ws: Seq<u8>, q: Seq<u8>)
    requires
        forall|i: int| 0 <= i < ws.len() ==> is_whitespace_byte(ws[i]),
    ensures
        tokens(ws + q) == tokens(q),
    decreases ws.len(),
{
    if ws.len() == 0 {
        assert(ws + q =~= q);
    } else {
        let s = ws + q;
        assert(s[0] == ws[0]);
        lemma_tokens_ws_step(s);
        assert(s.skip(1) =~= ws.skip(1) + q);
        lemma_tokens_ws_prefix(ws.skip(1), q);
    }
}

/// Whitespace transparency: inserting or removing a run of whitespace at a
/// token boundary never changes the token sequence. The boundary must not
/// split a token: the bytes on either side of it may not both belong to one
/// identifier run, nor both to one number run — between two tokens that is
/// always so. Removing the run (`left + right`) and inserting it
/// (`left + ws + right`) lex to the same tokens.
#[verifier::rlimit(60)]
pub proof fn lemma_whitespace_transparency(left: Seq<u8>, ws: Seq<u8>, right: Seq<u8>)
    requires
        forall|i: int| 0 <= i < ws.len() ==> is_whitespace_byte(ws[i]),
        !(left.len() > 0 && right.len() > 0 && is_letter_byte(left.last())
            && is_letter_byte(right[0])),
        !(left.len() > 0 && right.len() > 0 && is_digit_byte(left.last())
            && is_digit_byte(right[0])),
    ensures
        tokens(left + ws + right) == tokens(left + right),
    decreases left.len(),
{
    let s1 = left + ws + right;
    let s2 = left + right;
    if left.len() == 0 {
        assert(s1 =~= ws + right);
        assert(s2 =~= right);
        lemma_tokens_ws_prefix(ws, right);
    } else if is_whitespace_byte(left[0]) {
        assert(s1[0] == left[0] && s2[0] == left[0]);
        lemma_tokens_ws_step(s1);
        lemma_tokens_ws_step(s2);
        assert(s1.skip(1) =~= left.skip(1) + ws + right);
        assert(s2.skip(1) =~= left.skip(1) + right);
        lemma_whitespace_transparency(left.skip(1), ws, right);
    } else {
        assert(s1[0] == left[0] && s2[0] == left[0]);
        lemma_ws_len_unique(s1, 0);
        lemma_ws_len_unique(s2, 0);
        assert(s1.skip(0) =~= s1);
        assert(s2.skip(0) =~= s2);
        if is_letter_byte(left[0]) {
            lemma_letter_len_props(left);
            let r = letter_len(left) as int;
            assert forall|i: int| 0 <= i < r implies is_letter_byte(s1[i]) && is_letter_byte(
                s2[i],
            ) by {
                assert(s1[i] == left[i] && s2[i] == left[i]);
            }
            if r < left.len() {
                assert(s1[r] == left[r] && s2[r] == left[r]);
                lemma_letter_len_unique(s1, r as nat);
                lemma_letter_len_unique(s2, r as nat);
                assert(s1.take(r) =~= left.take(r));
                assert(s2.take(r) =~= left.take(r));
                assert(first_token(s1) == first_token(s2));
                assert(first_token_len(s1) == r && first_token_len(s2) == r);
                assert(s1.skip(r) =~= left.skip(r) + ws + right);
                assert(s2.skip(r) =~= left.skip(r) + right);
                assert(left.skip(r).last() == left.last());
                lemma_whitespace_transparency(left.skip(r), ws, right);
            } else {
                assert(left.last() == left[left.len() - 1]);
                assert(is_letter_byte(left.last()));
                if s1.len() > left.len() {
                    assert(s1[left.len() as int] == if ws.len() > 0 {
                        ws[0]
                    } else {
                        right[0]
                    });
                }
                if s2.len() > left.len() {
                    assert(s2[left.len() as int] == right[0]);
                }
                lemma_letter_len_unique(s1, left.len());
                lemma_letter_len_unique(s2, left.len());
                assert(s1.take(left.len() as int) =~= left);
                assert(s2.take(left.len() as int) =~= left);
                assert(first_token(s1) == first_token(s2));
                assert(s1.skip(left.len() as int) =~= ws + right);
                assert(s2.skip(left.len() as int) =~= right);
                lemma_tokens_ws_prefix(ws, right);
            }
        } else if is_digit_byte(left[0]) {
            lemma_digit_len_props(left);
            let r = digit_len(left) as int;
            assert forall|i: int| 0 <= i < r implies is_digit_byte(s1[i]) && is_digit_byte(
                s2[i],
            ) by {
                assert(s1[i] == left[i] && s2[i] == left[i]);
            }
            if r < left.len() {
                assert(s1[r] == left[r] && s2[r] == left[r]);
                lemma_digit_len_unique(s1, r as nat);
                lemma_digit_len_unique(s2, r as nat);
                assert(s1.take(r) =~= left.take(r));
                assert(s2.take(r) =~= left.take(r));
                assert(first_token(s1) == first_token(s2));
                assert(first_token_len(s1) == r && first_token_len(s2) == r);
                assert(s1.skip(r) =~= left.skip(r) + ws + right);
                assert(s2.skip(r) =~= left.skip(r) + right);
                assert(left.skip(r).last() == left.last());
                lemma_whitespace_transparency(left.skip(r), ws, right);
            } else {
                assert(left.last() == left[left.len() - 1]);
                assert(is_digit_byte(left.last()));
                if s1.len() > left.len() {
                    assert(s1[left.len() as int] == if ws.len() > 0 {
                        ws[0]
                    } else {
                        right[0]
                    });
                }
                if s2.len() > left.len() {
                    assert(s2[left.len() as int] == right[0]);
                }
                lemma_digit_len_unique(s1, left.len());
                lemma_digit_len_unique(s2, left.len());
                assert(s1.take(left.len() as int) =~= left);
                assert(s2.take(left.len() as int) =~= left);
                assert(first_token(s1) == first_token(s2));
                assert(s1.skip(left.len() as int) =~= ws + right);
                assert(s2.skip(left.len() as int) =~= right);
                lemma_tokens_ws_prefix(ws, right);
            }
        } else {
            assert(first_token(s1) == first_token(s2));
            assert(first_token_len(s1) == 1 && first_token_len(s2) == 1);
            assert(!(first_token(s1) is Eof));
            assert(s1.skip(1) =~= left.skip(1) + ws + right);
            assert(s2.skip(1) =~= left.skip(1) + right);
            lemma_whitespace_transparency(left.skip(1), ws, right);
        }
    }
}

} // verus!
