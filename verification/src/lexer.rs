//! The lexer: turns source text into tokens, one call at a time.
//!
//! The lexer reads the UTF-8 bytes of the source one byte at a time. A byte
//! is classified as the Latin-1 character with the same code (so the bytes
//! of a multi-byte character are seen separately), and the text of an
//! identifier, number or string token is the source text between two byte
//! positions.
use vstd::prelude::*;
use vstd::utf8::*;
use vstd::string::StringSliceAdditionalSpecFns;
use crate::token::{Token, TokenType};
use crate::text::{utf8_to_str, char_to_string, owned};

verus! {

broadcast use vstd::string::group_string_axioms;

// ==================== byte classes ====================

/// Whitespace other than the newline: space, tab, form feed, carriage return.
pub open spec fn is_inline_space(c: u8) -> bool {
    c == 32 || c == 9 || c == 12 || c == 13
}

/// An ASCII decimal digit.
pub open spec fn is_digit(c: u8) -> bool {
    48 <= c <= 57
}

/// The byte, read as a Latin-1 character, is alphabetic.
pub open spec fn is_letter(c: u8) -> bool {
    ||| 65 <= c <= 90
    ||| 97 <= c <= 122
    ||| c == 0xAA
    ||| c == 0xB5
    ||| c == 0xBA
    ||| 0xC0 <= c <= 0xD6
    ||| 0xD8 <= c <= 0xF6
    ||| c >= 0xF8
}

/// The byte, read as a Latin-1 character, is alphabetic or numeric.
pub open spec fn is_letter_or_digit(c: u8) -> bool {
    ||| is_letter(c)
    ||| is_digit(c)
    ||| c == 0xB2
    ||| c == 0xB3
    ||| c == 0xB9
    ||| 0xBC <= c <= 0xBE
}

/// A byte that can start an identifier.
pub open spec fn is_ident_start(c: u8) -> bool {
    is_letter(c) || c == 95
}

/// A byte that can continue an identifier.
pub open spec fn is_ident_continue(c: u8) -> bool {
    is_letter_or_digit(c) || c == 95
}

/// The byte at `p`, or 0 past the end of the source.
pub open spec fn byte_at(b: Seq<u8>, p: nat) -> u8 {
    if p < b.len() {
        b[p as int]
    } else {
        0
    }
}

/// The reserved words of the language.
pub open spec fn keyword_list() -> Seq<Seq<char>> {
    seq![
        "if"@, "else"@, "for"@, "return"@, "int"@, "float"@, "str"@, "func"@, "var"@,
        "val"@, "module"@, "import"@, "in"@, "true"@, "false"@, "while"@, "break"@,
        "continue"@, "null"@, "self"@, "export"@, "struct"@, "impl"@, "constructor"@,
        "new"@, "convert"@, "operator"@,
    ]
}

/// `word` is a reserved word.
pub open spec fn is_keyword(word: Seq<char>) -> bool {
    keyword_list().contains(word)
}

// ==================== scanners ====================

/// End of a `//` comment starting at `p`: the next newline, or the end.
pub open spec fn line_comment_end(b: Seq<u8>, p: nat) -> nat
    decreases b.len() - p,
{
    if p >= b.len() || b[p as int] == 10 {
        p
    } else {
        line_comment_end(b, p + 1)
    }
}

/// End of a block comment whose body is scanned from `p`: just past the
/// first `*/`, or the end of the source when there is none.
pub open spec fn block_comment_end(b: Seq<u8>, p: nat) -> nat
    decreases b.len() - p,
{
    if p >= b.len() {
        p
    } else if b[p as int] == 42 && byte_at(b, p + 1) == 47 {
        p + 2
    } else {
        block_comment_end(b, p + 1)
    }
}

/// Whether a block comment scanned from `p` is closed by `*/`.
pub open spec fn block_comment_closed(b: Seq<u8>, p: nat) -> bool
    decreases b.len() - p,
{
    if p >= b.len() {
        false
    } else if b[p as int] == 42 && byte_at(b, p + 1) == 47 {
        true
    } else {
        block_comment_closed(b, p + 1)
    }
}

/// End of an attribute `#[...]` whose body is scanned from `p` with `depth`
/// brackets open: just past the bracket that closes it, or the end.
pub open spec fn attribute_end(b: Seq<u8>, p: nat, depth: int) -> nat
    decreases b.len() - p,
{
    if p >= b.len() || depth <= 0 {
        p
    } else {
        let d = if b[p as int] == 91 {
            depth + 1
        } else if b[p as int] == 93 {
            depth - 1
        } else {
            depth
        };
        attribute_end(b, p + 1, d)
    }
}

/// The position of the next token at or after `p`: past whitespace other
/// than newlines, `//` and block comments, and `#[...]` attributes.
pub open spec fn skip_trivia(b: Seq<u8>, p: nat) -> nat
    decreases b.len() - p,
{
    if p >= b.len() {
        p
    } else if is_inline_space(b[p as int]) {
        skip_trivia(b, p + 1)
    } else if b[p as int] == 47 && byte_at(b, p + 1) == 47 {
        let q = line_comment_end(b, p);
        if p < q <= b.len() {
            skip_trivia(b, q)
        } else {
            p
        }
    } else if b[p as int] == 47 && byte_at(b, p + 1) == 42 {
        let q = block_comment_end(b, p + 1);
        if p < q <= b.len() {
            skip_trivia(b, q)
        } else {
            p
        }
    } else if b[p as int] == 35 && byte_at(b, p + 1) == 91 {
        let q = attribute_end(b, p + 2, 1);
        if p < q <= b.len() {
            skip_trivia(b, q)
        } else {
            p
        }
    } else {
        p
    }
}

/// End of the identifier whose bytes are scanned from `p`.
pub open spec fn ident_end(b: Seq<u8>, p: nat) -> nat
    decreases b.len() - p,
{
    if p < b.len() && is_ident_continue(b[p as int]) {
        ident_end(b, p + 1)
    } else {
        p
    }
}

/// End of the number scanned from `p`: digits with at most one `.` that is
/// followed by a digit.
pub open spec fn number_end(b: Seq<u8>, p: nat, has_decimal: bool) -> nat
    decreases b.len() - p,
{
    if p >= b.len() {
        p
    } else if is_digit(b[p as int]) {
        number_end(b, p + 1, has_decimal)
    } else if b[p as int] == 46 && !has_decimal {
        if byte_at(b, p + 1) == 0 || !is_digit(byte_at(b, p + 1)) {
            p
        } else {
            number_end(b, p + 1, true)
        }
    } else {
        p
    }
}

/// End of the body of a string literal scanned from `p`: the closing quote,
/// or the end of the source. A backslash that is followed by a byte other
/// than 0 escapes that byte.
pub open spec fn string_end(b: Seq<u8>, p: nat) -> nat
    decreases b.len() - p,
{
    if p >= b.len() {
        p
    } else if b[p as int] == 34 {
        p
    } else if b[p as int] == 92 && byte_at(b, p + 1) != 0 {
        if p + 2 <= b.len() {
            string_end(b, p + 2)
        } else {
            p
        }
    } else {
        string_end(b, p + 1)
    }
}

/// A token as the lexer yields it: its class, its text, and the position
/// just past it.
pub type SpecToken = (TokenType, Seq<char>, nat);

/// The string literal whose body starts at `p`: a `String` token when it is
/// closed (the closing quote is consumed), an `Unknown` token otherwise.
pub open spec fn string_literal(b: Seq<u8>, p: nat) -> SpecToken {
    let e = string_end(b, p);
    let v = decode_utf8(b.subrange(p as int, e as int));
    if e < b.len() {
        (TokenType::String, v, e + 1)
    } else {
        (TokenType::Unknown, v, e)
    }
}

/// The operator that starts with byte `c` when the byte after it is `next`:
/// its class, its text, and how many bytes it spans; `None` when `c` starts
/// no operator.
pub open spec fn operator_token(c: u8, next: u8) -> Option<(TokenType, Seq<char>, nat)> {
    if c == 43 || c == 45 || c == 42 || c == 47 || c == 37 || c == 61 || c == 62 || c == 60
        || c == 33 {
        // + - * / % = > < !  (each may be followed by '=')
        if next == 61 {
            Some((TokenType::Operator, seq![c as char, '='], 2))
        } else {
            Some((TokenType::Operator, seq![c as char], 1))
        }
    } else if c == 46 {
        if next == 46 {
            Some((TokenType::Operator, seq!['.', '.'], 2))
        } else {
            Some((TokenType::Operator, seq!['.'], 1))
        }
    } else if c == 38 || c == 124 {
        // && ||; a single & or | is not an operator
        if next == c {
            Some((TokenType::Operator, seq![c as char, c as char], 2))
        } else {
            Some((TokenType::Unknown, seq![c as char], 1))
        }
    } else if c == 40 || c == 41 || c == 123 || c == 125 || c == 91 || c == 93 || c == 58
        || c == 44 || c == 63 {
        // ( ) { } [ ] : , ?
        Some((TokenType::Operator, seq![c as char], 1))
    } else {
        None
    }
}

/// The token that starts exactly at `p`.
pub open spec fn scan_token(b: Seq<u8>, p: nat) -> SpecToken {
    if p >= b.len() {
        (TokenType::EndOfFile, seq![], p)
    } else {
        let c = b[p as int];
        if c == 10 {
            (TokenType::EndOfLine, seq!['\n'], p + 1)
        } else if is_ident_start(c) {
            let e = ident_end(b, p);
            let v = decode_utf8(b.subrange(p as int, e as int));
            (if is_keyword(v) { TokenType::Keyword } else { TokenType::Identifier }, v, e)
        } else if is_digit(c) {
            let e = number_end(b, p, false);
            if e == p {
                (TokenType::Unknown, seq![c as char], p + 1)
            } else {
                (TokenType::Number, decode_utf8(b.subrange(p as int, e as int)), e)
            }
        } else if c == 34 {
            string_literal(b, p + 1)
        } else if c == 64 {
            if byte_at(b, p + 1) != 34 {
                (TokenType::Unknown, seq!['@'], if p + 1 < b.len() { p + 2 } else { p + 1 })
            } else {
                let s = string_literal(b, p + 2);
                (TokenType::FormatString, s.1, s.2)
            }
        } else {
            match operator_token(c, byte_at(b, p + 1)) {
                Some(op) => (op.0, op.1, p + op.2),
                None => (TokenType::Unknown, seq![c as char], p + 1),
            }
        }
    }
}

/// The token the lexer yields when it stands at position `p`.
pub open spec fn lex_next(b: Seq<u8>, p: nat) -> SpecToken {
    scan_token(b, skip_trivia(b, p))
}

/// Whether taking the text of the token that starts at `p` cuts a UTF-8
/// character in two (which aborts the lexer).
pub open spec fn scan_cuts_char(b: Seq<u8>, p: nat) -> bool {
    p < b.len() && {
        let c = b[p as int];
        ||| is_ident_start(c) && !valid_utf8(b.subrange(p as int, ident_end(b, p) as int))
        ||| is_digit(c) && !valid_utf8(b.subrange(p as int, number_end(b, p, false) as int))
        ||| c == 34 && !valid_utf8(b.subrange(p + 1 as int, string_end(b, p + 1) as int))
        ||| c == 64 && byte_at(b, p + 1) == 34 && !valid_utf8(
            b.subrange(p + 2 as int, string_end(b, p + 2) as int),
        )
    }
}

/// Whether the next call of the lexer at position `p` would cut a character.
pub open spec fn lex_cuts_char(b: Seq<u8>, p: nat) -> bool {
    scan_cuts_char(b, skip_trivia(b, p))
}

// ==================== bounds of the scanners ====================

pub proof fn lemma_line_comment_end(b: Seq<u8>, p: nat)
    requires
        p <= b.len(),
    ensures
        p <= line_comment_end(b, p) <= b.len(),
        p < b.len() && b[p as int] != 10 ==> p < line_comment_end(b, p),
    decreases b.len() - p,
{
    if p < b.len() && b[p as int] != 10 {
        lemma_line_comment_end(b, p + 1);
    }
}

pub proof fn lemma_block_comment_end(b: Seq<u8>, p: nat)
    requires
        p <= b.len(),
    ensures
        p <= block_comment_end(b, p) <= b.len(),
    decreases b.len() - p,
{
    if p < b.len() && !(b[p as int] == 42 && byte_at(b, p + 1) == 47) {
        lemma_block_comment_end(b, p + 1);
    }
}

pub proof fn lemma_attribute_end(b: Seq<u8>, p: nat, depth: int)
    requires
        p <= b.len(),
    ensures
        p <= attribute_end(b, p, depth) <= b.len(),
    decreases b.len() - p,
{
    if p < b.len() && depth > 0 {
        let d = if b[p as int] == 91 {
            depth + 1
        } else if b[p as int] == 93 {
            depth - 1
        } else {
            depth
        };
        lemma_attribute_end(b, p + 1, d);
    }
}

pub proof fn lemma_skip_trivia(b: Seq<u8>, p: nat)
    requires
        p <= b.len(),
    ensures
        p <= skip_trivia(b, p) <= b.len(),
    decreases b.len() - p,
{
    if p < b.len() {
        if is_inline_space(b[p as int]) {
            lemma_skip_trivia(b, p + 1);
        } else if b[p as int] == 47 && byte_at(b, p + 1) == 47 {
            lemma_line_comment_end(b, p);
            lemma_skip_trivia(b, line_comment_end(b, p));
        } else if b[p as int] == 47 && byte_at(b, p + 1) == 42 {
            lemma_block_comment_end(b, p + 1);
            lemma_skip_trivia(b, block_comment_end(b, p + 1));
        } else if b[p as int] == 35 && byte_at(b, p + 1) == 91 {
            lemma_attribute_end(b, p + 2, 1);
            lemma_skip_trivia(b, attribute_end(b, p + 2, 1));
        }
    }
}

pub proof fn lemma_ident_end(b: Seq<u8>, p: nat)
    requires
        p <= b.len(),
    ensures
        p <= ident_end(b, p) <= b.len(),
    decreases b.len() - p,
{
    if p < b.len() && is_ident_continue(b[p as int]) {
        lemma_ident_end(b, p + 1);
    }
}

/// The bytes that start an operator which may be followed by `=`:
/// `+ - * / % = < > !`.
pub open spec fn compound_operator_byte(c: u8) -> bool {
    c == '+' as u8 || c == '-' as u8 || c == '*' as u8 || c == '/' as u8 || c == '%' as u8 || c == '=' as u8
        || c == '<' as u8 || c == '>' as u8 || c == '!' as u8
}

/// Where the next token starts with one of `+ - * / % = < > !` followed by
/// `=`, the token is the operator made of those two characters, and
/// reading goes on two bytes further (`%=` is one token, not `%` then `=`).
pub proof fn lemma_compound_operator_token(b: Seq<u8>, p: nat)
    requires
        skip_trivia(b, p) + 1 < b.len(),
        compound_operator_byte(b[skip_trivia(b, p) as int]),
        b[skip_trivia(b, p) + 1int] == '=' as u8,
    ensures
        lex_next(b, p) == (
            TokenType::Operator,
            seq![b[skip_trivia(b, p) as int] as char, '='],
            skip_trivia(b, p) + 2,
        ),
{
}

proof fn lemma_ident_end_word(b: Seq<u8>, p: nat)
    requires
        p <= b.len(),
        forall|i: int| 0 <= i < b.len() ==> is_ident_continue(#[trigger] b[i]),
    ensures
        ident_end(b, p) == b.len(),
    decreases b.len() - p,
{
    if p < b.len() {
        lemma_ident_end_word(b, p + 1);
    }
}

/// A source that is one word (a letter or `_`, then letters, digits or
/// `_`) scans as one token holding the whole word: a keyword exactly when
/// the word is one of the reserved words of `keyword_list`, else an
/// identifier.
pub proof fn lemma_word_is_one_token(b: Seq<u8>)
    requires
        b.len() > 0,
        is_ident_start(b[0]),
        forall|i: int| 0 <= i < b.len() ==> is_ident_continue(#[trigger] b[i]),
    ensures
        lex_next(b, 0) == (
            if is_keyword(decode_utf8(b)) {
                TokenType::Keyword
            } else {
                TokenType::Identifier
            },
            decode_utf8(b),
            b.len(),
        ),
{
    assert(skip_trivia(b, 0) == 0);
    lemma_ident_end_word(b, 0);
    assert(b.subrange(0, b.len() as int) =~= b);
}

pub proof fn lemma_number_end(b: Seq<u8>, p: nat, has_decimal: bool)
    requires
        p <= b.len(),
    ensures
        p <= number_end(b, p, has_decimal) <= b.len(),
        p < b.len() && is_digit(b[p as int]) ==> p < number_end(b, p, has_decimal),
    decreases b.len() - p,
{
    if p < b.len() {
        if is_digit(b[p as int]) {
            lemma_number_end(b, p + 1, has_decimal);
        } else if b[p as int] == 46 && !has_decimal && !(byte_at(b, p + 1) == 0 || !is_digit(
            byte_at(b, p + 1),
        )) {
            lemma_number_end(b, p + 1, true);
        }
    }
}

pub proof fn lemma_string_end(b: Seq<u8>, p: nat)
    requires
        p <= b.len(),
    ensures
        p <= string_end(b, p) <= b.len(),
        string_end(b, p) < b.len() ==> b[string_end(b, p) as int] == 34,
    decreases b.len() - p,
{
    if p < b.len() && b[p as int] != 34 {
        if b[p as int] == 92 && byte_at(b, p + 1) != 0 {
            lemma_string_end(b, p + 2);
        } else {
            lemma_string_end(b, p + 1);
        }
    }
}


// ==================== laws ====================

/// Bytes that are all ASCII form well-formed UTF-8.
pub proof fn lemma_ascii_valid_utf8(s: Seq<u8>)
    requires
        forall|i: int| 0 <= i < s.len() ==> s[i] < 128,
    ensures
        valid_utf8(s),
    decreases s.len(),
{
    if s.len() > 0 {
        let t = s.subrange(1, s.len() as int);
        lemma_ascii_valid_utf8(t);
        let b0 = s[0];
        assert(b0 & 0x7F <= 0x7F) by (bit_vector);
        assert(pop_first_scalar(s) =~= t);
    }
}

/// Lexing an ASCII source never cuts a character in two: every call of
/// `get_next_token` on such a source is allowed.
pub proof fn lemma_ascii_source_never_cut(b: Seq<u8>, p: nat)
    requires
        p <= b.len(),
        forall|i: int| 0 <= i < b.len() ==> b[i] < 128,
    ensures
        !lex_cuts_char(b, p),
{
    lemma_skip_trivia(b, p);
    let q = skip_trivia(b, p);
    if q < b.len() {
        lemma_ident_end(b, q);
        lemma_number_end(b, q, false);
        lemma_string_end(b, q + 1);
        let e1 = ident_end(b, q);
        let s1 = b.subrange(q as int, e1 as int);
        assert forall|i: int| 0 <= i < s1.len() implies s1[i] < 128 by {
            assert(s1[i] == b[q + i]);
        }
        lemma_ascii_valid_utf8(s1);
        let e2 = number_end(b, q, false);
        let s2 = b.subrange(q as int, e2 as int);
        assert forall|i: int| 0 <= i < s2.len() implies s2[i] < 128 by {
            assert(s2[i] == b[q + i]);
        }
        lemma_ascii_valid_utf8(s2);
        let e3 = string_end(b, q + 1);
        let s3 = b.subrange(q + 1 as int, e3 as int);
        assert forall|i: int| 0 <= i < s3.len() implies s3[i] < 128 by {
            assert(s3[i] == b[q + 1 + i]);
        }
        lemma_ascii_valid_utf8(s3);
        if byte_at(b, q + 1) == 34 {
            lemma_string_end(b, q + 2);
            let e4 = string_end(b, q + 2);
            let s4 = b.subrange(q + 2 as int, e4 as int);
            assert forall|i: int| 0 <= i < s4.len() implies s4[i] < 128 by {
                assert(s4[i] == b[q + 2 + i]);
            }
            lemma_ascii_valid_utf8(s4);
        }
    }
}

/// Every token but `EndOfFile` moves the lexer forward, and never past the
/// end of the source; `EndOfFile` leaves it at the end of the source, where
/// every later call yields `EndOfFile` again, with empty text.
pub proof fn lemma_lex_progress(b: Seq<u8>, p: nat)
    requires
        p <= b.len(),
    ensures
        p <= lex_next(b, p).2 <= b.len(),
        lex_next(b, p).0 != TokenType::EndOfFile ==> p < lex_next(b, p).2,
        lex_next(b, p).0 == TokenType::EndOfFile ==> {
            &&& lex_next(b, p).1 == Seq::<char>::empty()
            &&& lex_next(b, p).2 == b.len()
            &&& lex_next(b, b.len() as nat) == lex_next(b, p)
        },
{
    lemma_skip_trivia(b, p);
    let q = skip_trivia(b, p);
    if q < b.len() {
        let c = b[q as int];
        lemma_ident_end(b, q);
        lemma_number_end(b, q, false);
        lemma_string_end(b, q + 1);
        if is_ident_start(c) {
            assert(is_ident_continue(c));
            assert(ident_end(b, q) == ident_end(b, q + 1));
            lemma_ident_end(b, q + 1);
        }
        if c == 64 && byte_at(b, q + 1) == 34 {
            lemma_string_end(b, q + 2);
        }
    }
}

// ==================== byte classes, executable ====================

fn is_inline_space_byte(c: u8) -> (r: bool)
    ensures
        r == is_inline_space(c),
{
    c == 32 || c == 9 || c == 12 || c == 13
}

fn is_digit_byte(c: u8) -> (r: bool)
    ensures
        r == is_digit(c),
{
    48 <= c && c <= 57
}

fn is_letter_byte(c: u8) -> (r: bool)
    ensures
        r == is_letter(c),
{
    (65 <= c && c <= 90) || (97 <= c && c <= 122) || c == 0xAA || c == 0xB5 || c == 0xBA || (0xC0
        <= c && c <= 0xD6) || (0xD8 <= c && c <= 0xF6) || c >= 0xF8
}

fn is_ident_continue_byte(c: u8) -> (r: bool)
    ensures
        r == is_ident_continue(c),
{
    is_letter_byte(c) || is_digit_byte(c) || c == 0xB2 || c == 0xB3 || c == 0xB9 || (0xBC <= c && c
        <= 0xBE) || c == 95
}

// ==================== scanners over positions ====================

fn byte_at_exec(b: &Vec<u8>, p: usize) -> (c: u8)
    ensures
        c == byte_at(b@, p as nat),
{
    if p < b.len() {
        b[p]
    } else {
        0
    }
}

fn line_comment_end_at(b: &Vec<u8>, p: usize) -> (q: usize)
    requires
        p <= b@.len(),
    ensures
        q == line_comment_end(b@, p as nat),
{
    let mut i = p;
    while i < b.len() && b[i] != 10
        invariant
            p <= i <= b@.len(),
            line_comment_end(b@, i as nat) == line_comment_end(b@, p as nat),
        decreases b@.len() - i,
    {
        i = i + 1;
    }
    i
}

fn block_comment_end_at(b: &Vec<u8>, p: usize) -> (q: usize)
    requires
        p <= b@.len(),
    ensures
        q == block_comment_end(b@, p as nat),
{
    let mut i = p;
    while i < b.len()
        invariant
            p <= i <= b@.len(),
            block_comment_end(b@, i as nat) == block_comment_end(b@, p as nat),
        decreases b@.len() - i,
    {
        if b[i] == 42 && byte_at_exec(b, i + 1) == 47 {
            return i + 2;
        }
        i = i + 1;
    }
    i
}

fn attribute_end_at(b: &Vec<u8>, p: usize) -> (q: usize)
    requires
        p <= b@.len() < i32::MAX,
    ensures
        q == attribute_end(b@, p as nat, 1),
{
    let mut i = p;
    let mut depth: i64 = 1;
    while i < b.len() && depth > 0
        invariant
            p <= i <= b@.len() < i32::MAX,
            0 <= depth <= 1 + i - p,
            attribute_end(b@, i as nat, depth as int) == attribute_end(b@, p as nat, 1),
        decreases b@.len() - i,
    {
        if b[i] == 91 {
            depth = depth + 1;
        } else if b[i] == 93 {
            depth = depth - 1;
        }
        i = i + 1;
    }
    i
}

fn skip_trivia_at(b: &Vec<u8>, p: usize) -> (q: usize)
    requires
        p <= b@.len() < i32::MAX,
    ensures
        q == skip_trivia(b@, p as nat),
        q <= b@.len(),
{
    let mut i = p;
    loop
        invariant
            p <= i <= b@.len() < i32::MAX,
            skip_trivia(b@, i as nat) == skip_trivia(b@, p as nat),
        ensures
            i == skip_trivia(b@, p as nat),
            i <= b@.len(),
        decreases b@.len() - i,
    {
        if i >= b.len() {
            break;
        }
        let c = b[i];
        let n = byte_at_exec(b, i + 1);
        if is_inline_space_byte(c) {
            i = i + 1;
        } else if c == 47 && n == 47 {
            proof {
                lemma_line_comment_end(b@, i as nat);
            }
            i = line_comment_end_at(b, i);
        } else if c == 47 && n == 42 {
            proof {
                lemma_block_comment_end(b@, i as nat + 1);
            }
            let q = block_comment_end_at(b, i + 1);
            if q <= i {
                break;
            }
            i = q;
        } else if c == 35 && n == 91 {
            proof {
                lemma_attribute_end(b@, i as nat + 2, 1);
            }
            let q = attribute_end_at(b, i + 2);
            if q <= i {
                break;
            }
            i = q;
        } else {
            break;
        }
    }
    i
}

fn ident_end_at(b: &Vec<u8>, p: usize) -> (q: usize)
    requires
        p <= b@.len(),
    ensures
        q == ident_end(b@, p as nat),
{
    let mut i = p;
    while i < b.len() && is_ident_continue_byte(b[i])
        invariant
            p <= i <= b@.len(),
            ident_end(b@, i as nat) == ident_end(b@, p as nat),
        decreases b@.len() - i,
    {
        i = i + 1;
    }
    i
}

fn number_end_at(b: &Vec<u8>, p: usize) -> (q: usize)
    requires
        p <= b@.len(),
    ensures
        q == number_end(b@, p as nat, false),
{
    let mut i = p;
    let mut has_decimal = false;
    loop
        invariant
            p <= i <= b@.len(),
            number_end(b@, i as nat, has_decimal) == number_end(b@, p as nat, false),
        ensures
            i == number_end(b@, p as nat, false),
        decreases b@.len() - i,
    {
        if i >= b.len() {
            break;
        }
        let c = b[i];
        if is_digit_byte(c) {
            i = i + 1;
        } else if c == 46 && !has_decimal {
            let n = byte_at_exec(b, i + 1);
            if n == 0 || !is_digit_byte(n) {
                break;
            }
            has_decimal = true;
            i = i + 1;
        } else {
            break;
        }
    }
    i
}

fn string_end_at(b: &Vec<u8>, p: usize) -> (q: usize)
    requires
        p <= b@.len(),
    ensures
        q == string_end(b@, p as nat),
{
    let mut i = p;
    loop
        invariant
            p <= i <= b@.len(),
            string_end(b@, i as nat) == string_end(b@, p as nat),
        ensures
            i == string_end(b@, p as nat),
        decreases b@.len() - i,
    {
        if i >= b.len() || b[i] == 34 {
            break;
        }
        if b[i] == 92 && byte_at_exec(b, i + 1) != 0 {
            if i + 2 > b.len() {
                break;
            }
            i = i + 2;
        } else {
            i = i + 1;
        }
    }
    i
}

/// Whether the bytes between two positions are well-formed UTF-8.
fn valid_between(b: &Vec<u8>, start: usize, end: usize) -> (r: bool)
    requires
        start <= end <= b@.len(),
    ensures
        r == valid_utf8(b@.subrange(start as int, end as int)),
{
    let slice = &b.as_slice()[start..end];
    utf8_to_str(slice).is_some()
}

fn scan_cuts_char_at(b: &Vec<u8>, p: usize) -> (r: bool)
    requires
        p <= b@.len(),
    ensures
        r == scan_cuts_char(b@, p as nat),
{
    if p >= b.len() {
        return false;
    }
    let c = b[p];
    if is_letter_byte(c) || c == 95 {
        proof {
            lemma_ident_end(b@, p as nat);
        }
        let e = ident_end_at(b, p);
        !valid_between(b, p, e)
    } else if is_digit_byte(c) {
        proof {
            lemma_number_end(b@, p as nat, false);
        }
        let e = number_end_at(b, p);
        !valid_between(b, p, e)
    } else if c == 34 {
        proof {
            lemma_string_end(b@, p as nat + 1);
        }
        let e = string_end_at(b, p + 1);
        !valid_between(b, p + 1, e)
    } else if c == 64 && byte_at_exec(b, p + 1) == 34 {
        proof {
            lemma_string_end(b@, p as nat + 2);
        }
        let e = string_end_at(b, p + 2);
        !valid_between(b, p + 2, e)
    } else {
        false
    }
}

// ==================== the lexer ====================

/// A lexer over one source text.
pub struct Lexer {
    source: Vec<u8>,
    current_position: usize,
    line: i32,
    col: i32,
    keywords: Vec<String>,
}

impl Lexer {
    /// The bytes of the source text.
    pub closed spec fn src(&self) -> Seq<u8> {
        self.source@
    }

    /// The byte position the lexer stands at.
    pub closed spec fn pos(&self) -> nat {
        self.current_position as nat
    }

    #[verifier::type_invariant]
    closed spec fn inv(&self) -> bool {
        &&& self.source@.len() < i32::MAX
        &&& self.current_position <= self.source@.len()
        &&& 1 <= self.line <= 1 + self.current_position
        &&& 0 <= self.col <= self.current_position
        &&& self.keywords@.len() == keyword_list().len()
        &&& forall|i: int| 0 <= i < self.keywords@.len() ==> #[trigger] self.keywords@[i]@ == keyword_list()[i]
    }

    /// A lexer at the start of `source`. The source must be shorter than
    /// `i32::MAX` bytes, so that line and column counters cannot overflow.
    pub fn new(source: &str) -> (l: Lexer)
        requires
            source.spec_bytes().len() < i32::MAX,
        ensures
            l.src() == source.spec_bytes(),
            l.pos() == 0,
    {
        let bytes = source.as_bytes();
        let mut src: Vec<u8> = Vec::new();
        let mut i: usize = 0;
        while i < bytes.len()
            invariant
                i <= bytes@.len(),
                src@ == bytes@.subrange(0, i as int),
            decreases bytes@.len() - i,
        {
            src.push(bytes[i]);
            i = i + 1;
            assert(src@ =~= bytes@.subrange(0, i as int));
        }
        assert(src@ =~= bytes@);
        let keywords = Self::keyword_strings();
        Lexer { source: src, current_position: 0, line: 1, col: 0, keywords }
    }

    fn keyword_strings() -> (v: Vec<String>)
        ensures
            v@.len() == keyword_list().len(),
            forall|i: int| 0 <= i < v@.len() ==> #[trigger] v@[i]@ == keyword_list()[i],
    {
        let mut v: Vec<String> = Vec::new();
        v.push(owned("if"));
        v.push(owned("else"));
        v.push(owned("for"));
        v.push(owned("return"));
        v.push(owned("int"));
        v.push(owned("float"));
        v.push(owned("str"));
        v.push(owned("func"));
        v.push(owned("var"));
        v.push(owned("val"));
        v.push(owned("module"));
        v.push(owned("import"));
        v.push(owned("in"));
        v.push(owned("true"));
        v.push(owned("false"));
        v.push(owned("while"));
        v.push(owned("break"));
        v.push(owned("continue"));
        v.push(owned("null"));
        v.push(owned("self"));
        v.push(owned("export"));
        v.push(owned("struct"));
        v.push(owned("impl"));
        v.push(owned("constructor"));
        v.push(owned("new"));
        v.push(owned("convert"));
        v.push(owned("operator"));
        v
    }

    /// Moves the lexer back to the start of its source.
    pub fn reset_position(&mut self)
        ensures
            final(self).src() == old(self).src(),
            final(self).pos() == 0,
    {
        proof {
            use_type_invariant(&*self);
        }
        self.col = 0;
        self.line = 1;
        self.current_position = 0;
    }

    fn is_source_end(&self) -> (r: bool)
        ensures
            r == (self.pos() >= self.src().len()),
    {
        self.current_position >= self.source.len()
    }

    fn peek(&self) -> (c: u8)
        ensures
            c == byte_at(self.src(), self.pos()),
    {
        if self.is_source_end() {
            0
        } else {
            self.source[self.current_position]
        }
    }

    fn peek_next(&self) -> (c: u8)
        ensures
            c == byte_at(self.src(), self.pos() + 1),
    {
        proof {
            use_type_invariant(self);
        }
        if self.current_position + 1 < self.source.len() {
            self.source[self.current_position + 1]
        } else {
            0
        }
    }

    fn consume(&mut self) -> (c: u8)
        ensures
            final(self).src() == old(self).src(),
            c == byte_at(old(self).src(), old(self).pos()),
            final(self).pos() == if old(self).pos() < old(self).src().len() {
                old(self).pos() + 1
            } else {
                old(self).pos()
            },
    {
        proof {
            use_type_invariant(&*self);
        }
        if self.is_source_end() {
            return 0;
        }
        let c = self.source[self.current_position];
        self.current_position = self.current_position + 1;
        if c == 10 {
            self.line = self.line + 1;
            self.col = 0;
        } else {
            self.col = self.col + 1;
        }
        c
    }

    fn skip_line_comment(&mut self)
        ensures
            final(self).src() == old(self).src(),
            final(self).pos() == line_comment_end(old(self).src(), old(self).pos()),
    {
        proof {
            use_type_invariant(&*self);
        }
        let ghost b = self.src();
        let ghost p0 = self.pos();
        while !self.is_source_end() && self.peek() != 10
            invariant
                self.src() == b,
                self.pos() <= b.len(),
                line_comment_end(b, self.pos()) == line_comment_end(b, p0),
            decreases b.len() - self.pos(),
        {
            self.consume();
            proof {
                use_type_invariant(&*self);
            }
        }
    }

    fn skip_block_comment(&mut self) -> (closed: bool)
        requires
            old(self).pos() < old(self).src().len(),
        ensures
            final(self).src() == old(self).src(),
            final(self).pos() == block_comment_end(old(self).src(), old(self).pos() + 1),
            closed == block_comment_closed(old(self).src(), old(self).pos() + 1),
    {
        let ghost b = self.src();
        let ghost p0 = self.pos();
        self.consume();
        proof {
            use_type_invariant(&*self);
        }
        while !self.is_source_end()
            invariant
                self.src() == b,
                old(self).src() == b,
                old(self).pos() == p0,
                self.pos() <= b.len(),
                block_comment_end(b, self.pos()) == block_comment_end(b, p0 + 1),
                block_comment_closed(b, self.pos()) == block_comment_closed(b, p0 + 1),
            decreases b.len() - self.pos(),
        {
            if self.peek() == 42 && self.peek_next() == 47 {
                self.consume();
                self.consume();
                return true;
            }
            self.consume();
            proof {
                use_type_invariant(&*self);
            }
        }
        false
    }

    fn skip_attribute(&mut self)
        requires
            old(self).pos() + 1 < old(self).src().len(),
        ensures
            final(self).src() == old(self).src(),
            final(self).pos() == attribute_end(old(self).src(), old(self).pos() + 2, 1),
    {
        let ghost b = self.src();
        let ghost p0 = self.pos();
        self.consume();
        self.consume();
        proof {
            use_type_invariant(&*self);
        }
        let mut depth: i32 = 1;
        while !self.is_source_end() && depth > 0
            invariant
                self.src() == b,
                p0 + 2 <= self.pos() <= b.len(),
                b.len() < i32::MAX,
                0 <= depth <= 1 + self.pos() - (p0 + 2),
                attribute_end(b, self.pos(), depth as int) == attribute_end(b, p0 + 2, 1),
            decreases b.len() - self.pos(),
        {
            let c = self.peek();
            if c == 91 {
                depth = depth + 1;
            } else if c == 93 {
                depth = depth - 1;
            }
            self.consume();
            proof {
                use_type_invariant(&*self);
            }
        }
    }

    /// Whether `word` is one of the reserved words.
    fn is_keyword_string(&self, word: &String) -> (r: bool)
        ensures
            r == is_keyword(word@),
    {
        proof {
            use_type_invariant(self);
        }
        let mut i: usize = 0;
        while i < self.keywords.len()
            invariant
                i <= self.keywords@.len(),
                self.keywords@.len() == keyword_list().len(),
                forall|k: int| 0 <= k < self.keywords@.len() ==> #[trigger] self.keywords@[k]@ == keyword_list()[k],
                forall|k: int| 0 <= k < i ==> keyword_list()[k] != word@,
            decreases self.keywords@.len() - i,
        {
            if self.keywords[i] == *word {
                assert(keyword_list()[i as int] == word@);
                return true;
            }
            i = i + 1;
        }
        proof {
            if keyword_list().contains(word@) {
                let k = choose|k: int| 0 <= k < keyword_list().len() && keyword_list()[k] == word@;
                assert(keyword_list()[k] == word@);
            }
        }
        false
    }

    /// The source text between two byte positions.
    fn text_between(&self, start: usize, end: usize) -> (s: String)
        requires
            start <= end <= self.src().len(),
            valid_utf8(self.src().subrange(start as int, end as int)),
        ensures
            s@ == decode_utf8(self.src().subrange(start as int, end as int)),
    {
        let slice = &self.source.as_slice()[start..end];
        match utf8_to_str(slice) {
            Some(t) => t.to_string(),
            None => String::new(),
        }
    }

    fn parse_identifier(&mut self) -> (t: Token)
        requires
            old(self).pos() < old(self).src().len(),
            is_ident_start(old(self).src()[old(self).pos() as int]),
            !scan_cuts_char(old(self).src(), old(self).pos()),
        ensures
            final(self).src() == old(self).src(),
            (t.token_type, t.value@, final(self).pos()) == scan_token(old(self).src(), old(self).pos()),
            t.line == 0 && t.col == 0,
    {
        proof {
            use_type_invariant(&*self);
        }
        let ghost b = self.src();
        let start = self.current_position;
        while !self.is_source_end() && is_ident_continue_byte(self.peek())
            invariant
                self.src() == b,
                start <= self.pos() <= b.len(),
                ident_end(b, self.pos()) == ident_end(b, start as nat),
            decreases b.len() - self.pos(),
        {
            self.consume();
            proof {
                use_type_invariant(&*self);
            }
        }
        let identifier = self.text_between(start, self.current_position);
        if self.is_keyword_string(&identifier) {
            Token::new(TokenType::Keyword, identifier)
        } else {
            Token::new(TokenType::Identifier, identifier)
        }
    }

    fn parse_number(&mut self) -> (t: Token)
        requires
            old(self).pos() < old(self).src().len(),
            is_digit(old(self).src()[old(self).pos() as int]),
            !scan_cuts_char(old(self).src(), old(self).pos()),
        ensures
            final(self).src() == old(self).src(),
            (t.token_type, t.value@, final(self).pos()) == scan_token(old(self).src(), old(self).pos()),
            t.line == 0 && t.col == 0,
    {
        proof {
            use_type_invariant(&*self);
        }
        let ghost b = self.src();
        let start = self.current_position;
        let mut has_decimal = false;
        loop
            invariant
                self.src() == b,
                start <= self.pos() <= b.len(),
                number_end(b, self.pos(), has_decimal) == number_end(b, start as nat, false),
            ensures
                self.src() == b,
                start <= self.pos() <= b.len(),
                self.pos() == number_end(b, start as nat, false),
            decreases b.len() - self.pos(),
        {
            if self.is_source_end() {
                break;
            }
            let c = self.peek();
            if is_digit_byte(c) {
                self.consume();
            } else if c == 46 && !has_decimal {
                let n = self.peek_next();
                if n == 0 || !is_digit_byte(n) {
                    break;
                }
                has_decimal = true;
                self.consume();
            } else {
                break;
            }
            proof {
                use_type_invariant(&*self);
            }
        }
        proof {
            lemma_number_end(b, start as nat, false);
        }
        if self.current_position == start {
            let c = self.consume();
            return Token::new(TokenType::Unknown, char_to_string(c as char));
        }
        let number = self.text_between(start, self.current_position);
        Token::new(TokenType::Number, number)
    }

    /// Reads a string literal whose opening quote the lexer stands at.
    fn parse_string(&mut self) -> (t: Token)
        requires
            old(self).pos() < old(self).src().len(),
            valid_utf8(
                old(self).src().subrange(
                    old(self).pos() + 1 as int,
                    string_end(old(self).src(), old(self).pos() + 1) as int,
                ),
            ),
        ensures
            final(self).src() == old(self).src(),
            (t.token_type, t.value@, final(self).pos()) == string_literal(old(self).src(), old(self).pos() + 1),
            t.line == 0 && t.col == 0,
    {
        proof {
            use_type_invariant(&*self);
        }
        let ghost b = self.src();
        self.consume();
        proof {
            use_type_invariant(&*self);
        }
        let start = self.current_position;
        let mut is_closed = false;
        loop
            invariant_except_break
                !is_closed,
            invariant
                self.src() == b,
                start <= self.pos() <= b.len(),
                string_end(b, self.pos()) == string_end(b, start as nat),
            ensures
                self.src() == b,
                start <= self.pos() <= b.len(),
                self.pos() == string_end(b, start as nat),
                is_closed == (self.pos() < b.len()),
            decreases b.len() - self.pos(),
        {
            if self.is_source_end() {
                break;
            }
            let c = self.peek();
            if c == 34 {
                is_closed = true;
                break;
            }
            if c == 92 && self.peek_next() != 0 {
                self.consume();
            }
            self.consume();
            proof {
                use_type_invariant(&*self);
            }
        }
        proof {
            lemma_string_end(b, start as nat);
        }
        let s = self.text_between(start, self.current_position);
        if is_closed {
            self.consume();
            Token::new(TokenType::String, s)
        } else {
            Token::new(TokenType::Unknown, s)
        }
    }

    /// Reads an operator, or an unknown byte, at the lexer's position.
    fn scan_operator(&mut self) -> (t: Token)
        requires
            old(self).pos() < old(self).src().len(),
            old(self).src()[old(self).pos() as int] != 10,
            !is_ident_start(old(self).src()[old(self).pos() as int]),
            !is_digit(old(self).src()[old(self).pos() as int]),
            old(self).src()[old(self).pos() as int] != 34,
            old(self).src()[old(self).pos() as int] != 64,
        ensures
            final(self).src() == old(self).src(),
            (t.token_type, t.value@, final(self).pos()) == scan_token(old(self).src(), old(self).pos()),
            t.line == 0 && t.col == 0,
    {
        proof {
            reveal_strlit("=");
        }
        let c = self.consume();
        let next = self.peek();
        if c == 43 || c == 45 || c == 42 || c == 47 || c == 37 || c == 61 || c == 62 || c == 60
            || c == 33 {
            if next == 61 {
                self.consume();
                let mut s = char_to_string(c as char);
                s.append("=");
                return Token::new(TokenType::Operator, s);
            }
            return Token::new(TokenType::Operator, char_to_string(c as char));
        }
        if c == 46 {
            if next == 46 {
                self.consume();
                let mut s = char_to_string('.');
                s.append(char_to_string('.').as_str());
                return Token::new(TokenType::Operator, s);
            }
            return Token::new(TokenType::Operator, char_to_string('.'));
        }
        if c == 38 || c == 124 {
            if next == c {
                self.consume();
                let mut s = char_to_string(c as char);
                s.append(char_to_string(c as char).as_str());
                return Token::new(TokenType::Operator, s);
            }
            return Token::new(TokenType::Unknown, char_to_string(c as char));
        }
        if c == 40 || c == 41 || c == 123 || c == 125 || c == 91 || c == 93 || c == 58 || c == 44
            || c == 63 {
            return Token::new(TokenType::Operator, char_to_string(c as char));
        }
        Token::new(TokenType::Unknown, char_to_string(c as char))
    }

    /// Whether the next call of `get_next_token` would take a token text
    /// that cuts a multi-byte character in two (see `lex_cuts_char`).
    pub fn next_token_cuts_char(&self) -> (r: bool)
        ensures
            r == lex_cuts_char(self.src(), self.pos()),
    {
        proof {
            use_type_invariant(self);
        }
        let q = skip_trivia_at(&self.source, self.current_position);
        scan_cuts_char_at(&self.source, q)
    }

    /// Reads the next token. Whitespace other than newlines, comments and
    /// `#[...]` attributes before it are skipped; at the end of the source the
    /// token is `EndOfFile` with empty text, and it stays so on later calls.
    /// The source must not have a multi-byte character cut by the token's
    /// text (see `lex_cuts_char`); an ASCII source never does.
    pub fn get_next_token(&mut self) -> (t: Token)
        requires
            !lex_cuts_char(old(self).src(), old(self).pos()),
        ensures
            final(self).src() == old(self).src(),
            (t.token_type, t.value@, final(self).pos()) == lex_next(old(self).src(), old(self).pos()),
            t.line == 0,
            t.col == 0,
            ({
                let b = old(self).src();
                let q = skip_trivia(b, old(self).pos());
                q + 1 < b.len() && compound_operator_byte(b[q as int]) && b[q + 1int] == '=' as u8 ==> {
                    &&& t.token_type == TokenType::Operator
                    &&& t.value@ == seq![b[q as int] as char, '=']
                    &&& final(self).pos() == q + 2
                }
            }),
    {
        proof {
            let b = old(self).src();
            let q = skip_trivia(b, old(self).pos());
            if q + 1 < b.len() && compound_operator_byte(b[q as int]) && b[q + 1int] == '=' as u8 {
                lemma_compound_operator_token(b, old(self).pos());
            }
        }
        proof {
            use_type_invariant(&*self);
        }
        let ghost b = self.src();
        let ghost p0 = self.pos();
        loop
            invariant
                self.src() == b,
                p0 <= self.pos() <= b.len(),
                skip_trivia(b, self.pos()) == skip_trivia(b, p0),
            ensures
                self.src() == b,
                self.pos() == skip_trivia(b, p0),
            decreases b.len() - self.pos(),
        {
            if self.is_source_end() {
                break;
            }
            let c = self.peek();
            if is_inline_space_byte(c) {
                self.consume();
                continue;
            }
            if c == 47 && self.peek_next() == 47 {
                proof {
                    lemma_line_comment_end(b, self.pos());
                }
                self.skip_line_comment();
                continue;
            }
            if c == 47 && self.peek_next() == 42 {
                proof {
                    lemma_block_comment_end(b, self.pos() + 1);
                }
                self.skip_block_comment();
                continue;
            }
            if c == 35 && self.peek_next() == 91 {
                proof {
                    lemma_attribute_end(b, self.pos() + 2, 1);
                }
                self.skip_attribute();
                continue;
            }
            break;
        }
        if self.is_source_end() {
            return Token::new(TokenType::EndOfFile, String::new());
        }
        let current = self.peek();
        if current == 10 {
            self.consume();
            proof {
                reveal_strlit("\n");
            }
            return Token::new(TokenType::EndOfLine, owned("\n"));
        }
        proof {
            lemma_ident_end(b, self.pos());
            lemma_number_end(b, self.pos(), false);
        }
        if is_letter_byte(current) || current == 95 {
            return self.parse_identifier();
        }
        if is_digit_byte(current) {
            return self.parse_number();
        }
        if current == 34 {
            return self.parse_string();
        }
        if current == 64 {
            self.consume();
            if self.peek() != 34 {
                self.consume();
                proof {
                    reveal_strlit("@");
                }
                return Token::new(TokenType::Unknown, owned("@"));
            }
            let s = self.parse_string();
            return Token::new(TokenType::FormatString, s.value);
        }
        self.scan_operator()
    }
}

} // verus!
