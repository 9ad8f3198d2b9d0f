//! The scanner: a byte buffer, a cursor, and a one-byte lookahead, turned
//! into tokens one `next_token` call at a time.

use vstd::prelude::*;

use crate::scanning::{
    digit_len, first_token, first_token_len, is_digit_byte, is_letter_byte, is_symbol_byte,
    is_whitespace_byte, lemma_digit_len_unique, lemma_first_token_len_bounds,
    lemma_letter_len_unique, lemma_ws_len_props, lemma_ws_len_unique, letter_len, symbol_token,
    tokens, ws_len,
};
use crate::token::{chars_of, Token};

verus! {

/// The byte of `s` at `i`, or the sentinel 0 when `i` is past the end.
pub open spec fn byte_at(s: Seq<u8>, i: int) -> u8 {
    if 0 <= i < s.len() {
        s[i]
    } else {
        0
    }
}

/// The scanner. The buffer is fixed at construction; only the cursor and the
/// lookahead byte change while tokens are pulled.
pub struct Lexer {
    input: Vec<u8>,
    position: usize,
    ch: u8,
}

/// Relies on `String::into_bytes`: the returned vector holds the UTF-8
/// encoding of the text.
pub assume_specification[ String::into_bytes ](s: String) -> (bytes: Vec<u8>)
    ensures
        bytes@ == vstd::utf8::encode_utf8(s@),
;

/// Relies on `String::from_utf8_lossy`: bytes below 128 decode to exactly one
/// character each, the character with the byte's code point.
#[verifier::external_body]
fn ascii_string(bytes: &Vec<u8>) -> (text: String)
    requires
        forall|i: int| 0 <= i < bytes@.len() ==> bytes@[i] < 128,
    ensures
        text@ == chars_of(bytes@),
{
    String::from_utf8_lossy(bytes).into_owned()
}

/// Whether `b` is an ASCII whitespace byte.
fn is_whitespace(b: u8) -> (r: bool)
    ensures
        r == is_whitespace_byte(b),
{
    b == 32 || b == 9 || b == 10 || b == 12 || b == 13
}

/// Whether `b` is an ASCII letter or the underscore.
fn is_letter(b: u8) -> (r: bool)
    ensures
        r == is_letter_byte(b),
{
    (97 <= b && b <= 122) || (65 <= b && b <= 90) || b == 95
}

/// Whether `b` is an ASCII decimal digit.
fn is_digit(b: u8) -> (r: bool)
    ensures
        r == is_digit_byte(b),
{
    48 <= b && b <= 57
}

impl Lexer {
    /// The whole input, as the scanner owns it.
    pub closed spec fn bytes(self) -> Seq<u8> {
        self.input@
    }

    /// The cursor: how many bytes of the input are already consumed.
    pub closed spec fn pos(self) -> nat {
        self.position as nat
    }

    /// The unconsumed part of the input.
    pub open spec fn remaining(self) -> Seq<u8> {
        self.bytes().skip(self.pos() as int)
    }

    /// Well-formedness: the cursor stays inside the buffer (or just past it)
    /// and the lookahead byte is the byte under the cursor, with the sentinel
    /// 0 once the buffer is exhausted.
    pub closed spec fn wf(self) -> bool {
        &&& self.position <= self.input@.len()
        &&& self.ch == byte_at(self.input@, self.position as int)
    }

    /// Build a scanner over `input`, cursor at the start. Any text is
    /// accepted, including the empty one.
    pub fn new(input: String) -> (lexer: Lexer)
        ensures
            lexer.wf(),
            lexer.bytes() == vstd::utf8::encode_utf8(input@),
            lexer.pos() == 0,
    {
        let bytes = input.into_bytes();
        let ch = if bytes.len() > 0 {
            bytes[0]
        } else {
            0
        };
        Lexer { input: bytes, position: 0, ch }
    }

    /// Advance the cursor one byte and refresh the lookahead; at the end of
    /// the buffer the cursor stays put and the lookahead stays 0.
    fn read_char(&mut self)
        requires
            old(self).wf(),
        ensures
            final(self).wf(),
            final(self).bytes() == old(self).bytes(),
            final(self).pos() == if old(self).pos() < old(self).bytes().len() {
                old(self).pos() + 1
            } else {
                old(self).pos()
            },
    {
        if self.position < self.input.len() {
            self.position = self.position + 1;
        }
        self.ch = if self.position < self.input.len() {
            self.input[self.position]
        } else {
            0
        };
    }

    /// Move the cursor past the maximal whitespace run under it.
    fn skip_whitespace(&mut self)
        requires
            old(self).wf(),
        ensures
            final(self).wf(),
            final(self).bytes() == old(self).bytes(),
            final(self).pos() == old(self).pos() + ws_len(old(self).remaining()),
    {
        while is_whitespace(self.ch)
            invariant
                self.wf(),
                self.bytes() == old(self).bytes(),
                old(self).pos() <= self.pos() <= self.bytes().len(),
                forall|i: int|
                    old(self).pos() <= i < self.pos() ==> is_whitespace_byte(self.bytes()[i]),
            decreases self.bytes().len() - self.pos(),
        {
            self.read_char();
        }
        proof {
            let rem = old(self).remaining();
            let n = self.pos() - old(self).pos();
            assert forall|i: int| 0 <= i < n implies is_whitespace_byte(rem[i]) by {
                assert(rem[i] == self.bytes()[old(self).pos() + i]);
            }
            if self.pos() < self.bytes().len() {
                assert(rem[n] == self.bytes()[self.pos() as int]);
            }
            lemma_ws_len_unique(rem, n as nat);
        }
    }

    /// Consume the maximal letter/underscore run under the cursor and return
    /// it as text.
    fn read_ident(&mut self) -> (text: String)
        requires
            old(self).wf(),
        ensures
            final(self).wf(),
            final(self).bytes() == old(self).bytes(),
            final(self).pos() == old(self).pos() + letter_len(old(self).remaining()),
            text@ == chars_of(
                old(self).remaining().take(letter_len(old(self).remaining()) as int),
            ),
    {
        let mut buf: Vec<u8> = Vec::new();
        while is_letter(self.ch)
            invariant
                self.wf(),
                self.bytes() == old(self).bytes(),
                old(self).pos() <= self.pos() <= self.bytes().len(),
                buf@ == self.bytes().subrange(old(self).pos() as int, self.pos() as int),
                forall|i: int|
                    old(self).pos() <= i < self.pos() ==> is_letter_byte(self.bytes()[i]),
            decreases self.bytes().len() - self.pos(),
        {
            buf.push(self.ch);
            self.read_char();
            proof {
                assert(buf@ =~= self.bytes().subrange(
                    old(self).pos() as int,
                    self.pos() as int,
                ));
            }
        }
        proof {
            let rem = old(self).remaining();
            let n = self.pos() - old(self).pos();
            assert forall|i: int| 0 <= i < n implies is_letter_byte(rem[i]) by {
                assert(rem[i] == self.bytes()[old(self).pos() + i]);
            }
            if self.pos() < self.bytes().len() {
                assert(rem[n] == self.bytes()[self.pos() as int]);
            }
            lemma_letter_len_unique(rem, n as nat);
            assert(buf@ =~= rem.take(n));
        }
        ascii_string(&buf)
    }

    /// Consume the maximal digit run under the cursor and return it as text.
    fn read_number(&mut self) -> (text: String)
        requires
            old(self).wf(),
        ensures
            final(self).wf(),
            final(self).bytes() == old(self).bytes(),
            final(self).pos() == old(self).pos() + digit_len(old(self).remaining()),
            text@ == chars_of(old(self).remaining().take(digit_len(old(self).remaining()) as int)),
    {
        let mut buf: Vec<u8> = Vec::new();
        while is_digit(self.ch)
            invariant
                self.wf(),
                self.bytes() == old(self).bytes(),
                old(self).pos() <= self.pos() <= self.bytes().len(),
                buf@ == self.bytes().subrange(old(self).pos() as int, self.pos() as int),
                forall|i: int|
                    old(self).pos() <= i < self.pos() ==> is_digit_byte(self.bytes()[i]),
            decreases self.bytes().len() - self.pos(),
        {
            buf.push(self.ch);
            self.read_char();
            proof {
                assert(buf@ =~= self.bytes().subrange(
                    old(self).pos() as int,
                    self.pos() as int,
                ));
            }
        }
        proof {
            let rem = old(self).remaining();
            let n = self.pos() - old(self).pos();
            assert forall|i: int| 0 <= i < n implies is_digit_byte(rem[i]) by {
                assert(rem[i] == self.bytes()[old(self).pos() + i]);
            }
            if self.pos() < self.bytes().len() {
                assert(rem[n] == self.bytes()[self.pos() as int]);
            }
            lemma_digit_len_unique(rem, n as nat);
            assert(buf@ =~= rem.take(n));
        }
        ascii_string(&buf)
    }

    /// Pull the next token: skip whitespace, take the maximal run or single
    /// byte under the cursor, and classify it. After the buffer is exhausted
    /// every call returns `Eof`.
    pub fn next_token(&mut self) -> (tok: Token)
        requires
            old(self).wf(),
        ensures
            final(self).wf(),
            final(self).bytes() == old(self).bytes(),
            tok@ == first_token(old(self).remaining()),
            final(self).pos() == old(self).pos() + first_token_len(old(self).remaining()),
    {
        self.skip_whitespace();
        proof {
            let rem = old(self).remaining();
            lemma_ws_len_props(rem);
            assert(self.remaining() =~= rem.skip(ws_len(rem) as int));
        }
        if self.position >= self.input.len() {
            return Token::Eof;
        }
        let b = self.ch;
        proof {
            assert(self.remaining()[0] == self.bytes()[self.pos() as int]);
        }
        if is_letter(b) {
            let text = self.read_ident();
            let keyword_function: String = String::from_str("fn");
            if text == keyword_function {
                return Token::Function;
            }
            let keyword_let: String = String::from_str("let");
            if text == keyword_let {
                return Token::Let;
            }
            return Token::Ident(text);
        }
        if is_digit(b) {
            return Token::Int(self.read_number());
        }
        let tok = if b == 61 {
            Token::Assign
        } else if b == 43 {
            Token::Plus
        } else if b == 44 {
            Token::Comma
        } else if b == 59 {
            Token::Semicolon
        } else if b == 40 {
            Token::Lparen
        } else if b == 41 {
            Token::Rparen
        } else if b == 123 {
            Token::Lbrace
        } else if b == 125 {
            Token::Rbrace
        } else {
            Token::Illegal
        };
        self.read_char();
        proof {
            assert(symbol_token(b) == tok@ || !is_symbol_byte(b));
        }
        tok
    }

    /// Pull every remaining token, the terminal `Eof` included. The loop
    /// provably terminates on any input: every token before `Eof` consumes at
    /// least one byte.
    pub fn remaining_tokens(&mut self) -> (out: Vec<Token>)
        requires
            old(self).wf(),
        ensures
            final(self).wf(),
            final(self).bytes() == old(self).bytes(),
            out@.map_values(|t: Token| t@) == tokens(old(self).remaining()),
    {
        let mut out: Vec<Token> = Vec::new();
        let mut done = false;
        while !done
            invariant
                self.wf(),
                self.bytes() == old(self).bytes(),
                !done ==> tokens(old(self).remaining()) == out@.map_values(|t: Token| t@)
                    + tokens(self.remaining()),
                done ==> out@.map_values(|t: Token| t@) == tokens(old(self).remaining()),
            decreases self.remaining().len() + (if done {
                0int
            } else {
                1int
            }),
        {
            let ghost rem = self.remaining();
            let ghost prev = out@.map_values(|t: Token| t@);
            let tok = self.next_token();
            proof {
                lemma_first_token_len_bounds(rem);
                assert(self.remaining() =~= rem.skip(first_token_len(rem) as int));
            }
            done = matches!(tok, Token::Eof);
            out.push(tok);
            proof {
                assert(out@.map_values(|t: Token| t@) =~= prev + seq![tok@]);
                if done {
                    assert(tokens(rem) =~= seq![tok@]);
                } else {
                    assert(tokens(rem) == seq![tok@] + tokens(self.remaining()));
                    assert(prev + seq![tok@] + tokens(self.remaining()) =~= prev + (seq![tok@]
                        + tokens(self.remaining())));
                }
            }
        }
        out
    }
}

} // verus!
