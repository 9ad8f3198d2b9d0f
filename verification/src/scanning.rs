//! The mathematical description of scanning: byte classification, maximal
//! runs, and the token that starts at the front of a byte sequence.

use vstd::prelude::*;

use crate::token::{chars_of, TokenModel};

verus! {

/// ASCII whitespace: space, tab, line feed, form feed, carriage return.
pub open spec fn is_whitespace_byte(b: u8) -> bool {
    b == 32 || b == 9 || b == 10 || b == 12 || b == 13
}

/// The identifier alphabet: ASCII letters and the underscore.
pub open spec fn is_letter_byte(b: u8) -> bool {
    (97 <= b && b <= 122) || (65 <= b && b <= 90) || b == 95
}

/// ASCII decimal digits.
pub open spec fn is_digit_byte(b: u8) -> bool {
    48 <= b && b <= 57
}

/// The eight single-character structural symbols:
/// `=` `+` `,` `;` `(` `)` `{` `}`, in that order.
pub open spec fn is_symbol_byte(b: u8) -> bool {
    b == 61 || b == 43 || b == 44 || b == 59 || b == 40 || b == 41 || b == 123
        || b == 125
}

/// Length of the maximal whitespace run at the front of `s`.
pub open spec fn ws_len(s: Seq<u8>) -> nat
    decreases s.len(),
{
    if s.len() > 0 && is_whitespace_byte(s[0]) {
        (1 + ws_len(s.skip(1))) as nat
    } else {
        0
    }
}

/// Length of the maximal letter/underscore run at the front of `s`.
pub open spec fn letter_len(s: Seq<u8>) -> nat
    decreases s.len(),
{
    if s.len() > 0 && is_letter_byte(s[0]) {
        (1 + letter_len(s.skip(1))) as nat
    } else {
        0
    }
}

/// Length of the maximal digit run at the front of `s`.
pub open spec fn digit_len(s: Seq<u8>) -> nat
    decreases s.len(),
{
    if s.len() > 0 && is_digit_byte(s[0]) {
        (1 + digit_len(s.skip(1))) as nat
    } else {
        0
    }
}

/// An identifier spelling becomes a keyword token when it equals a reserved
/// spelling, character for character; otherwise it stays an identifier.
pub open spec fn keyword_or_ident(text: Seq<char>) -> TokenModel {
    if text == "fn"@ {
        TokenModel::Function
    } else if text == "let"@ {
        TokenModel::Let
    } else {
        TokenModel::Ident(text)
    }
}

/// The structural token for a symbol byte.
pub open spec fn symbol_token(b: u8) -> TokenModel {
    if b == 61 {
        TokenModel::Assign
    } else if b == 43 {
        TokenModel::Plus
    } else if b == 44 {
        TokenModel::Comma
    } else if b == 59 {
        TokenModel::Semicolon
    } else if b == 40 {
        TokenModel::Lparen
    } else if b == 41 {
        TokenModel::Rparen
    } else if b == 123 {
        TokenModel::Lbrace
    } else {
        TokenModel::Rbrace
    }
}

/// The token that scanning produces at the front of `s`: skip the leading
/// whitespace, then classify the first remaining byte.  An empty remainder is
/// the end of input; a byte outside every category (including an embedded
/// zero byte) is `Illegal`.
pub open spec fn first_token(s: Seq<u8>) -> TokenModel {
    let rest = s.skip(ws_len(s) as int);
    if rest.len() == 0 {
        TokenModel::Eof
    } else if is_letter_byte(rest[0]) {
        keyword_or_ident(chars_of(rest.take(letter_len(rest) as int)))
    } else if is_digit_byte(rest[0]) {
        TokenModel::Int(chars_of(rest.take(digit_len(rest) as int)))
    } else if is_symbol_byte(rest[0]) {
        symbol_token(rest[0])
    } else {
        TokenModel::Illegal
    }
}

/// How many bytes the token at the front of `s` consumes, leading whitespace
/// included.
pub open spec fn first_token_len(s: Seq<u8>) -> nat {
    let w = ws_len(s);
    let rest = s.skip(w as int);
    if rest.len() == 0 {
        w
    } else if is_letter_byte(rest[0]) {
        w + letter_len(rest)
    } else if is_digit_byte(rest[0]) {
        w + digit_len(rest)
    } else {
        w + 1
    }
}

/// The complete token sequence of an input: every token that scanning
/// produces, in order, ending with the single `Eof` that marks exhaustion.
pub open spec fn tokens(s: Seq<u8>) -> Seq<TokenModel>
    decreases s.len(),
    via tokens_decreases
{
    if first_token(s) is Eof {
        seq![TokenModel::Eof]
    } else {
        seq![first_token(s)] + tokens(s.skip(first_token_len(s) as int))
    }
}

#[via_fn]
proof fn tokens_decreases(s: Seq<u8>) {
    lemma_first_token_len_bounds(s);
}

/// The whitespace run is bounded by the input, consists of whitespace, and is
/// maximal.
pub proof fn lemma_ws_len_props(s: Seq<u8>)
    ensures
        ws_len(s) <= s.len(),
        forall|i: int| 0 <= i < ws_len(s) ==> is_whitespace_byte(s[i]),
        ws_len(s) == s.len() || !is_whitespace_byte(s[ws_len(s) as int]),
    decreases s.len(),
{
    if s.len() > 0 && is_whitespace_byte(s[0]) {
        lemma_ws_len_props(s.skip(1));
        assert forall|i: int| 0 <= i < ws_len(s) implies is_whitespace_byte(s[i]) by {
            if i >= 1 {
                assert(s.skip(1)[i - 1] == s[i]);
            }
        }
    }
}

/// Any bound with the three properties of `lemma_ws_len_props` is the
/// whitespace run length.
pub proof fn lemma_ws_len_unique(s: Seq<u8>, n: nat)
    requires
        n <= s.len(),
        forall|i: int| 0 <= i < n ==> is_whitespace_byte(s[i]),
        n == s.len() || !is_whitespace_byte(s[n as int]),
    ensures
        ws_len(s) == n,
    decreases s.len(),
{
    if s.len() > 0 && is_whitespace_byte(s[0]) {
        lemma_ws_len_unique(s.skip(1), (n - 1) as nat);
    }
}

/// The letter run is bounded by the input, consists of letters, and is
/// maximal.
pub proof fn lemma_letter_len_props(s: Seq<u8>)
    ensures
        letter_len(s) <= s.len(),
        forall|i: int| 0 <= i < letter_len(s) ==> is_letter_byte(s[i]),
        letter_len(s) == s.len() || !is_letter_byte(s[letter_len(s) as int]),
    decreases s.len(),
{
    if s.len() > 0 && is_letter_byte(s[0]) {
        lemma_letter_len_props(s.skip(1));
        assert forall|i: int| 0 <= i < letter_len(s) implies is_letter_byte(s[i]) by {
            if i >= 1 {
                assert(s.skip(1)[i - 1] == s[i]);
            }
        }
    }
}

/// Any bound with the three properties of `lemma_letter_len_props` is the
/// letter run length.
pub proof fn lemma_letter_len_unique(s: Seq<u8>, n: nat)
    requires
        n <= s.len(),
        forall|i: int| 0 <= i < n ==> is_letter_byte(s[i]),
        n == s.len() || !is_letter_byte(s[n as int]),
    ensures
        letter_len(s) == n,
    decreases s.len(),
{
    if s.len() > 0 && is_letter_byte(s[0]) {
        lemma_letter_len_unique(s.skip(1), (n - 1) as nat);
    }
}

/// The digit run is bounded by the input, consists of digits, and is maximal.
pub proof fn lemma_digit_len_props(s: Seq<u8>)
    ensures
        digit_len(s) <= s.len(),
        forall|i: int| 0 <= i < digit_len(s) ==> is_digit_byte(s[i]),
        digit_len(s) == s.len() || !is_digit_byte(s[digit_len(s) as int]),
    decreases s.len(),
{
    if s.len() > 0 && is_digit_byte(s[0]) {
        lemma_digit_len_props(s.skip(1));
        assert forall|i: int| 0 <= i < digit_len(s) implies is_digit_byte(s[i]) by {
            if i >= 1 {
                assert(s.skip(1)[i - 1] == s[i]);
            }
        }
    }
}

/// Any bound with the three properties of `lemma_digit_len_props` is the
/// digit run length.
pub proof fn lemma_digit_len_unique(s: Seq<u8>, n: nat)
    requires
        n <= s.len(),
        forall|i: int| 0 <= i < n ==> is_digit_byte(s[i]),
        n == s.len() || !is_digit_byte(s[n as int]),
    ensures
        digit_len(s) == n,
    decreases s.len(),
{
    if s.len() > 0 && is_digit_byte(s[0]) {
        lemma_digit_len_unique(s.skip(1), (n - 1) as nat);
    }
}

/// The token at the front never consumes more than the whole input, and
/// consumes at least one byte unless it is the end of input.
pub proof fn lemma_first_token_len_bounds(s: Seq<u8>)
    ensures
        first_token_len(s) <= s.len(),
        !(first_token(s) is Eof) ==> 1 <= first_token_len(s),
        first_token(s) is Eof ==> first_token_len(s) == ws_len(s),
{
    lemma_ws_len_props(s);
    let rest = s.skip(ws_len(s) as int);
    if rest.len() > 0 {
        lemma_letter_len_props(rest);
        lemma_digit_len_props(rest);
        if is_letter_byte(rest[0]) {
            assert(letter_len(rest) >= 1);
        } else if is_digit_byte(rest[0]) {
            assert(digit_len(rest) >= 1);
        }
    }
}

} // verus!
