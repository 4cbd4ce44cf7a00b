//! The lexer: expression text to a token stream. Lexing never fails;
//! unrecognized characters are skipped and malformed input degrades to a
//! shorter token stream.

use vstd::prelude::*;
use vstd::string::StrSliceExecFns;
use crate::num::{dec_mag_upto, int_token_val, is_ascii_digit_c};
use crate::text::{alnum_char, char_is_alphanumeric};

verus! {

/// A lexical token.
#[derive(Debug, Clone, PartialEq)]
pub enum Token {
    Ident(String),
    Str(String),
    Int(i64),
    Dot,
    LParen,
    RParen,
    Comma,
    Not,
    Eq,
    Neq,
}

/// Mathematical model of a token.
pub enum TokenM {
    Ident(Seq<char>),
    StrLit(Seq<char>),
    Int(i64),
    Dot,
    LParen,
    RParen,
    Comma,
    Not,
    Eq,
    Neq,
}

pub open spec fn token_view(t: Token) -> TokenM {
    match t {
        Token::Ident(s) => TokenM::Ident(s@),
        Token::Str(s) => TokenM::StrLit(s@),
        Token::Int(n) => TokenM::Int(n),
        Token::Dot => TokenM::Dot,
        Token::LParen => TokenM::LParen,
        Token::RParen => TokenM::RParen,
        Token::Comma => TokenM::Comma,
        Token::Not => TokenM::Not,
        Token::Eq => TokenM::Eq,
        Token::Neq => TokenM::Neq,
    }
}

pub open spec fn tokens_view(v: Seq<Token>) -> Seq<TokenM> {
    v.map_values(|t: Token| token_view(t))
}

proof fn lemma_tokens_view_push(v: Seq<Token>, t: Token)
    ensures
        tokens_view(v.push(t)) == tokens_view(v).push(token_view(t)),
{
    assert(tokens_view(v.push(t)) =~= tokens_view(v).push(token_view(t)));
}

/// An identifier character: alphanumeric, `_`, `/`, or `#`, so that path
/// segments and tag text lex as one token.
pub open spec fn is_ident_char(c: char) -> bool {
    char_is_alphanumeric(c) || c == '_' || c == '/' || c == '#'
}

/// End of the identifier-character run starting at `i`.
pub open spec fn ident_end(s: Seq<char>, i: int) -> int
    decreases s.len() - i,
{
    if 0 <= i < s.len() && is_ident_char(s[i]) {
        ident_end(s, i + 1)
    } else {
        i
    }
}

/// End of the digit run starting at `i`.
pub open spec fn digits_end(s: Seq<char>, i: int) -> int
    decreases s.len() - i,
{
    if 0 <= i < s.len() && is_ascii_digit_c(s[i]) {
        digits_end(s, i + 1)
    } else {
        i
    }
}

/// First position at or after `i` holding the quote `q`, or the end of `s`.
pub open spec fn quote_end(s: Seq<char>, i: int, q: char) -> int
    decreases s.len() - i,
{
    if 0 <= i < s.len() && s[i] != q {
        quote_end(s, i + 1, q)
    } else {
        i
    }
}

pub open spec fn clamp_pos(k: int, lo: int, hi: int) -> int {
    if k < lo {
        lo
    } else if k > hi {
        hi
    } else {
        k
    }
}

/// The token stream of `s` from position `i` on. Whitespace and
/// unrecognized characters are skipped; `!=` and `==` are taken greedily
/// ahead of `!` and `=` (a lone `=` never tokenizes); a quoted literal
/// collects raw characters up to the matching quote or the end of input.
pub open spec fn spec_tokenize(s: Seq<char>, i: int) -> Seq<TokenM>
    decreases s.len() - i,
{
    if i < 0 || i >= s.len() {
        Seq::empty()
    } else {
        let c = s[i];
        if c == ' ' || c == '\t' {
            spec_tokenize(s, i + 1)
        } else if c == '.' {
            seq![TokenM::Dot] + spec_tokenize(s, i + 1)
        } else if c == '(' {
            seq![TokenM::LParen] + spec_tokenize(s, i + 1)
        } else if c == ')' {
            seq![TokenM::RParen] + spec_tokenize(s, i + 1)
        } else if c == ',' {
            seq![TokenM::Comma] + spec_tokenize(s, i + 1)
        } else if c == '!' {
            if i + 1 < s.len() && s[i + 1] == '=' {
                seq![TokenM::Neq] + spec_tokenize(s, i + 2)
            } else {
                seq![TokenM::Not] + spec_tokenize(s, i + 1)
            }
        } else if c == '=' {
            if i + 1 < s.len() && s[i + 1] == '=' {
                seq![TokenM::Eq] + spec_tokenize(s, i + 2)
            } else {
                spec_tokenize(s, i + 1)
            }
        } else if is_ascii_digit_c(c) || (c == '-' && i + 1 < s.len() && is_ascii_digit_c(s[i + 1])) {
            let dstart = if c == '-' {
                i + 1
            } else {
                i
            };
            let e = clamp_pos(digits_end(s, dstart), i + 1, s.len() as int);
            seq![TokenM::Int(int_token_val(s.subrange(i, e)))] + spec_tokenize(s, e)
        } else if c == '"' || c == '\'' {
            let e = clamp_pos(quote_end(s, i + 1, c), i + 1, s.len() as int);
            let nxt = if e < s.len() {
                e + 1
            } else {
                e
            };
            seq![TokenM::StrLit(s.subrange(i + 1, e))] + spec_tokenize(s, nxt)
        } else if is_ident_char(c) {
            let e = clamp_pos(ident_end(s, i + 1), i + 1, s.len() as int);
            seq![TokenM::Ident(s.subrange(i, e))] + spec_tokenize(s, e)
        } else {
            spec_tokenize(s, i + 1)
        }
    }
}

/// Lex expression text into tokens. Lexing never fails.
pub fn tokenize(input: &str) -> (r: Vec<Token>)
    ensures
        tokens_view(r@) == spec_tokenize(input@, 0),
{
    let ghost s = input@;
    let n = input.unicode_len();
    let mut toks: Vec<Token> = Vec::new();
    let mut i: usize = 0;
    while i < n
        invariant
            n == s.len(),
            s == input@,
            i <= n,
            spec_tokenize(s, 0) == tokens_view(toks@) + spec_tokenize(s, i as int),
        decreases n - i,
    {
        let ghost i0 = i as int;
        let ghost toks0 = toks@;
        let c = input.get_char(i);
        if c == ' ' || c == '\t' {
            i += 1;
        } else if c == '.' {
            toks.push(Token::Dot);
            i += 1;
            proof {
                lemma_tokens_view_push(toks0, Token::Dot);
                assert(tokens_view(toks@) + spec_tokenize(s, i0 + 1) =~= tokens_view(toks0) + (seq![TokenM::Dot] + spec_tokenize(s, i0 + 1)));
            }
        } else if c == '(' {
            toks.push(Token::LParen);
            i += 1;
            proof {
                lemma_tokens_view_push(toks0, Token::LParen);
                assert(tokens_view(toks@) + spec_tokenize(s, i0 + 1) =~= tokens_view(toks0) + (seq![TokenM::LParen] + spec_tokenize(s, i0 + 1)));
            }
        } else if c == ')' {
            toks.push(Token::RParen);
            i += 1;
            proof {
                lemma_tokens_view_push(toks0, Token::RParen);
                assert(tokens_view(toks@) + spec_tokenize(s, i0 + 1) =~= tokens_view(toks0) + (seq![TokenM::RParen] + spec_tokenize(s, i0 + 1)));
            }
        } else if c == ',' {
            toks.push(Token::Comma);
            i += 1;
            proof {
                lemma_tokens_view_push(toks0, Token::Comma);
                assert(tokens_view(toks@) + spec_tokenize(s, i0 + 1) =~= tokens_view(toks0) + (seq![TokenM::Comma] + spec_tokenize(s, i0 + 1)));
            }
        } else if c == '!' {
            if i + 1 < n && input.get_char(i + 1) == '=' {
                toks.push(Token::Neq);
                i += 2;
                proof {
                    lemma_tokens_view_push(toks0, Token::Neq);
                    assert(tokens_view(toks@) + spec_tokenize(s, i0 + 2) =~= tokens_view(toks0) + (seq![TokenM::Neq] + spec_tokenize(s, i0 + 2)));
                }
            } else {
                toks.push(Token::Not);
                i += 1;
                proof {
                    lemma_tokens_view_push(toks0, Token::Not);
                    assert(tokens_view(toks@) + spec_tokenize(s, i0 + 1) =~= tokens_view(toks0) + (seq![TokenM::Not] + spec_tokenize(s, i0 + 1)));
                }
            }
        } else if c == '=' {
            if i + 1 < n && input.get_char(i + 1) == '=' {
                toks.push(Token::Eq);
                i += 2;
                proof {
                    lemma_tokens_view_push(toks0, Token::Eq);
                    assert(tokens_view(toks@) + spec_tokenize(s, i0 + 2) =~= tokens_view(toks0) + (seq![TokenM::Eq] + spec_tokenize(s, i0 + 2)));
                }
            } else {
                i += 1;
            }
        } else if (c as u32 >= 48 && c as u32 <= 57)
            || (c == '-' && i + 1 < n && input.get_char(i + 1) as u32 >= 48 && input.get_char(i + 1) as u32 <= 57) {
            let dstart: usize = if c == '-' {
                i + 1
            } else {
                i
            };
            let mut j: usize = dstart;
            loop
                invariant
                    n == s.len(),
                    s == input@,
                    dstart <= j <= n,
                    dstart < n,
                    is_ascii_digit_c(s[dstart as int]),
                    forall|k: int| dstart <= k < j ==> is_ascii_digit_c(s[k]),
                    digits_end(s, dstart as int) == digits_end(s, j as int),
                ensures
                    dstart < j <= n,
                    j == digits_end(s, dstart as int),
                    forall|k: int| dstart <= k < j ==> is_ascii_digit_c(s[k]),
                decreases n - j,
            {
                if j >= n {
                    break;
                }
                let u = input.get_char(j) as u32;
                if !(u >= 48 && u <= 57) {
                    proof {
                        assert(j > dstart);
                    }
                    break;
                }
                j += 1;
            }
            let neg = c == '-';
            let cap: u128 = 0x8000_0000_0000_0000;
            let v: i64 = match dec_mag_upto(input, dstart, j, cap) {
                Some(m) => {
                    if neg {
                        (-(m as i128)) as i64
                    } else if m <= cap - 1 {
                        m as i64
                    } else {
                        0
                    }
                },
                None => 0,
            };
            proof {
                let text = s.subrange(i0, j as int);
                if neg {
                    assert(text[0] == '-');
                    assert(text.subrange(1, text.len() as int) =~= s.subrange(dstart as int, j as int));
                } else {
                    assert(text.len() > 0 && is_ascii_digit_c(text[0]));
                    assert(text[0] as u32 != 45) by {
                        assert(48 <= text[0] as u32 <= 57);
                    }
                    assert(text[0] != '-');
                    assert(text =~= s.subrange(dstart as int, j as int));
                }
                assert(v == int_token_val(text));
                assert(clamp_pos(digits_end(s, dstart as int), i0 + 1, s.len() as int) == j);
            }
            toks.push(Token::Int(v));
            proof {
                lemma_tokens_view_push(toks0, Token::Int(v));
                assert(tokens_view(toks@) + spec_tokenize(s, j as int) =~= tokens_view(toks0) + (seq![TokenM::Int(int_token_val(s.subrange(i0, j as int)))] + spec_tokenize(s, j as int)));
            }
            i = j;
        } else if c == '"' || c == '\'' {
            let mut j: usize = i + 1;
            loop
                invariant
                    n == s.len(),
                    s == input@,
                    i + 1 <= j <= n,
                    quote_end(s, i0 + 1, c) == quote_end(s, j as int, c),
                ensures
                    i + 1 <= j <= n,
                    j == quote_end(s, i0 + 1, c),
                decreases n - j,
            {
                if j >= n {
                    break;
                }
                if input.get_char(j) == c {
                    break;
                }
                j += 1;
            }
            let lit = input.substring_char(i + 1, j).to_owned();
            let nxt: usize = if j < n {
                j + 1
            } else {
                j
            };
            proof {
                assert(clamp_pos(quote_end(s, i0 + 1, c), i0 + 1, s.len() as int) == j);
            }
            toks.push(Token::Str(lit));
            proof {
                lemma_tokens_view_push(toks0, Token::Str(lit));
                assert(tokens_view(toks@) + spec_tokenize(s, nxt as int) =~= tokens_view(toks0) + (seq![TokenM::StrLit(s.subrange(i0 + 1, j as int))] + spec_tokenize(s, nxt as int)));
            }
            i = nxt;
        } else {
            let id = alnum_char(c) || c == '_' || c == '/' || c == '#';
            if id {
                let mut j: usize = i + 1;
                loop
                    invariant
                        n == s.len(),
                        s == input@,
                        i + 1 <= j <= n,
                        ident_end(s, i0 + 1) == ident_end(s, j as int),
                    ensures
                        i + 1 <= j <= n,
                        j == ident_end(s, i0 + 1),
                    decreases n - j,
                {
                    if j >= n {
                        break;
                    }
                    let cc = input.get_char(j);
                    let idc = alnum_char(cc) || cc == '_' || cc == '/' || cc == '#';
                    if !idc {
                        break;
                    }
                    j += 1;
                }
                let text = input.substring_char(i, j).to_owned();
                proof {
                    assert(clamp_pos(ident_end(s, i0 + 1), i0 + 1, s.len() as int) == j);
                }
                toks.push(Token::Ident(text));
                proof {
                    lemma_tokens_view_push(toks0, Token::Ident(text));
                    assert(tokens_view(toks@) + spec_tokenize(s, j as int) =~= tokens_view(toks0) + (seq![TokenM::Ident(s.subrange(i0, j as int))] + spec_tokenize(s, j as int)));
                }
                i = j;
            } else {
                i += 1;
            }
        }
    }
    proof {
        assert(spec_tokenize(s, n as int) =~= Seq::empty());
        assert(tokens_view(toks@) + Seq::<TokenM>::empty() =~= tokens_view(toks@));
    }
    toks
}

} // verus!
