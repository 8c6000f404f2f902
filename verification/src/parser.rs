//! The parser: source text to statements.
//!
//! Tokenization first, then recursive descent over the tokens with the
//! usual precedence ladder: comparisons bind loosest, then `+` and `-`,
//! then `*` and `/`, then postfix indexing, then atoms. All binary
//! operators associate to the left. Every statement ends with `;`, block
//! bodies included.
//!
//! The grammar itself is written once as spec functions (`tokenize_s`,
//! `p_expr`, `p_stmt`, `p_code`, ...), and every executable function here
//! is proved to return exactly what its spec function says of the input:
//! the statements on success, a failure exactly where the grammar gives
//! none. Every function is also total: it returns a `ParseError` instead
//! of panicking, whatever the input, and on success each step consumes at
//! least one token and never runs past the end.

use vstd::prelude::*;
use vstd::string::StrSliceExecFns;

use crate::ast::Ast;
use crate::ast::AstS;
use crate::ast::BinOp;
use crate::ast::deep_ast_seq;
use crate::ast::param_names;

verus! {

/// What made the text unparsable.
#[derive(Debug, PartialEq, Eq, Structural, Clone, Copy)]
pub enum ParseErrorKind {
    /// A character no token may start with.
    UnexpectedChar,
    /// A token that does not fit the grammar at its position.
    UnexpectedToken,
    /// The text stopped where the grammar needs more.
    UnexpectedEnd,
    /// An integer literal beyond the 64-bit range.
    InvalidLiteral,
}

/// A parse failure: its kind, and where it happened. The position counts
/// characters while tokenizing and tokens while parsing.
#[derive(Debug, PartialEq, Eq, Structural, Clone, Copy)]
pub struct ParseError {
    pub kind: ParseErrorKind,
    pub pos: usize,
}

/// One token of source text.
#[derive(Debug, PartialEq)]
pub enum Token {
    Int(i64),
    Ident(String),
    Str(String),
    KwDef,
    KwIf,
    KwFor,
    KwIn,
    LParen,
    RParen,
    LBracket,
    RBracket,
    LBrace,
    RBrace,
    Comma,
    Semi,
    Colon,
    Assign,
    Plus,
    Minus,
    Star,
    Slash,
    Lt,
    Gt,
    Le,
    Ge,
    EqEq,
}

/// The characters of a string, in order.
pub fn str_to_chars(s: &str) -> (r: Vec<char>)
    ensures
        r@ == s@,
{
    let len = s.unicode_len();
    let mut r: Vec<char> = Vec::new();
    let mut i: usize = 0;
    while i < len
        invariant
            i <= len,
            len == s@.len(),
            r@ == s@.take(i as int),
        decreases len - i,
    {
        r.push(s.get_char(i));
        i = i + 1;
        proof {
            assert(r@ =~= s@.take(i as int));
        }
    }
    proof {
        assert(s@.take(len as int) =~= s@);
    }
    r
}

/// The mathematical shape of a token.
pub ghost enum TokS {
    Int(int),
    Ident(Seq<char>),
    Str(Seq<char>),
    KwDef,
    KwIf,
    KwFor,
    KwIn,
    LParen,
    RParen,
    LBracket,
    RBracket,
    LBrace,
    RBrace,
    Comma,
    Semi,
    Colon,
    Assign,
    Plus,
    Minus,
    Star,
    Slash,
    Lt,
    Gt,
    Le,
    Ge,
    EqEq,
}

impl Token {
    /// The mathematical shape of this token.
    pub open spec fn deep(self) -> TokS {
        match self {
            Token::Int(n) => TokS::Int(n as int),
            Token::Ident(s) => TokS::Ident(s@),
            Token::Str(s) => TokS::Str(s@),
            Token::KwDef => TokS::KwDef,
            Token::KwIf => TokS::KwIf,
            Token::KwFor => TokS::KwFor,
            Token::KwIn => TokS::KwIn,
            Token::LParen => TokS::LParen,
            Token::RParen => TokS::RParen,
            Token::LBracket => TokS::LBracket,
            Token::RBracket => TokS::RBracket,
            Token::LBrace => TokS::LBrace,
            Token::RBrace => TokS::RBrace,
            Token::Comma => TokS::Comma,
            Token::Semi => TokS::Semi,
            Token::Colon => TokS::Colon,
            Token::Assign => TokS::Assign,
            Token::Plus => TokS::Plus,
            Token::Minus => TokS::Minus,
            Token::Star => TokS::Star,
            Token::Slash => TokS::Slash,
            Token::Lt => TokS::Lt,
            Token::Gt => TokS::Gt,
            Token::Le => TokS::Le,
            Token::Ge => TokS::Ge,
            Token::EqEq => TokS::EqEq,
        }
    }
}

/// The mathematical shapes of a token sequence, element by element.
pub open spec fn deep_tok_seq(ts: Seq<Token>) -> Seq<TokS>
    decreases ts,
{
    if ts.len() == 0 {
        Seq::empty()
    } else {
        seq![ts[0].deep()] + deep_tok_seq(ts.drop_first())
    }
}

pub broadcast proof fn lemma_deep_tok_seq(ts: Seq<Token>)
    ensures
        #![trigger deep_tok_seq(ts)]
        deep_tok_seq(ts).len() == ts.len(),
        forall|i: int| 0 <= i < ts.len() ==> deep_tok_seq(ts)[i] == ts[i].deep(),
    decreases ts,
{
    if ts.len() > 0 {
        lemma_deep_tok_seq(ts.drop_first());
    }
}


/// Whether a character is blank between tokens.
pub open spec fn is_space_s(c: char) -> bool {
    c == ' ' || c == '\n' || c == '\t' || c == '\r'
}

fn is_space(c: char) -> (r: bool)
    ensures
        r == is_space_s(c),
{
    c == ' ' || c == '\n' || c == '\t' || c == '\r'
}

/// Whether a character may start an identifier, as mathematics.
pub open spec fn ident_start_s(c: char) -> bool {
    (97 <= c as u32 <= 122) || (65 <= c as u32 <= 90) || c == '_'
}

/// Whether a character may continue an identifier, as mathematics.
pub open spec fn ident_char_s(c: char) -> bool {
    ident_start_s(c) || crate::semantics::is_digit_char(c)
}

fn is_digit_x(c: char) -> (r: bool)
    ensures
        r == crate::semantics::is_digit_char(c),
{
    let u = c as u32;
    u >= 48 && u <= 57
}

fn is_ident_start_x(c: char) -> (r: bool)
    ensures
        r == ident_start_s(c),
{
    let u = c as u32;
    (u >= 97 && u <= 122) || (u >= 65 && u <= 90) || c == '_'
}

fn is_ident_char_x(c: char) -> (r: bool)
    ensures
        r == ident_char_s(c),
{
    let u = c as u32;
    (u >= 97 && u <= 122) || (u >= 65 && u <= 90) || (u >= 48 && u <= 57) || c == '_'
}

/// The end of the digit run that starts at `i`, as mathematics.
pub open spec fn scan_digits_s(cs: Seq<char>, i: int) -> int
    decreases cs.len() - i,
{
    if 0 <= i < cs.len() && crate::semantics::is_digit_char(cs[i]) {
        scan_digits_s(cs, i + 1)
    } else {
        i
    }
}

/// The end of the identifier run that starts at `i`, as mathematics.
pub open spec fn scan_ident_s(cs: Seq<char>, i: int) -> int
    decreases cs.len() - i,
{
    if 0 <= i < cs.len() && ident_char_s(cs[i]) {
        scan_ident_s(cs, i + 1)
    } else {
        i
    }
}

/// The position of the closing quote at or after `i`, or the text length,
/// as mathematics.
pub open spec fn scan_str_s(cs: Seq<char>, i: int) -> int
    decreases cs.len() - i,
{
    if 0 <= i < cs.len() {
        if cs[i] == '"' {
            i
        } else {
            scan_str_s(cs, i + 1)
        }
    } else {
        i
    }
}

/// The end of the digit run that starts at `i`.
fn scan_digits(cs: &Vec<char>, i: usize) -> (j: usize)
    requires
        i <= cs@.len(),
    ensures
        j as int == scan_digits_s(cs@, i as int),
        i <= j <= cs@.len(),
        forall|k: int| i <= k < j ==> crate::semantics::is_digit_char(#[trigger] cs@[k]),
        (i < cs@.len() && crate::semantics::is_digit_char(cs@[i as int])) ==> j > i,
    decreases cs@.len() - i,
{
    if i < cs.len() && is_digit_x(cs[i]) {
        scan_digits(cs, i + 1)
    } else {
        i
    }
}

/// The end of the identifier run that starts at `i`.
fn scan_ident(cs: &Vec<char>, i: usize) -> (j: usize)
    requires
        i <= cs@.len(),
    ensures
        j as int == scan_ident_s(cs@, i as int),
        i <= j <= cs@.len(),
        (i < cs@.len() && ident_char_s(cs@[i as int])) ==> j > i,
    decreases cs@.len() - i,
{
    if i < cs.len() && is_ident_char_x(cs[i]) {
        scan_ident(cs, i + 1)
    } else {
        i
    }
}

/// The position of the closing quote at or after `i`, or the text length.
fn scan_str(cs: &Vec<char>, i: usize) -> (j: usize)
    requires
        i <= cs@.len(),
    ensures
        j as int == scan_str_s(cs@, i as int),
        i <= j <= cs@.len(),
        j < cs@.len() ==> cs@[j as int] == '"',
    decreases cs@.len() - i,
{
    if i < cs.len() {
        if cs[i] == '"' {
            i
        } else {
            scan_str(cs, i + 1)
        }
    } else {
        i
    }
}

/// The next step of the tokenizer at position `i`: blank space to skip, one
/// token with the position after it, or a failure.
pub ghost enum NextTokS {
    White(int),
    Tok(TokS, int),
    Fail,
}

/// What the tokenizer does at position `i`: skips one blank character,
/// reads one token (a run of digits as an integer literal, a word as a
/// keyword or identifier, a quoted string, or an operator of one or two
/// characters), or fails on a character no token may start with or an
/// integer literal beyond the 64-bit range.
pub open spec fn next_token_s(cs: Seq<char>, i: int) -> NextTokS
    recommends
        0 <= i < cs.len(),
{
    let c = cs[i];
    if is_space_s(c) {
        NextTokS::White(i + 1)
    } else if crate::semantics::is_digit_char(c) {
        let j = scan_digits_s(cs, i);
        let v = crate::semantics::digits_val(cs.subrange(i, j));
        if v > 0x7FFF_FFFF_FFFF_FFFF {
            NextTokS::Fail
        } else {
            NextTokS::Tok(TokS::Int(v as int), j)
        }
    } else if ident_start_s(c) {
        let j = scan_ident_s(cs, i);
        let w = cs.subrange(i, j);
        if w == "def"@ {
            NextTokS::Tok(TokS::KwDef, j)
        } else if w == "if"@ {
            NextTokS::Tok(TokS::KwIf, j)
        } else if w == "for"@ {
            NextTokS::Tok(TokS::KwFor, j)
        } else if w == "in"@ {
            NextTokS::Tok(TokS::KwIn, j)
        } else {
            NextTokS::Tok(TokS::Ident(w), j)
        }
    } else if c == '"' {
        let j = scan_str_s(cs, i + 1);
        if j >= cs.len() {
            NextTokS::Fail
        } else {
            NextTokS::Tok(TokS::Str(cs.subrange(i + 1, j)), j + 1)
        }
    } else if c == '(' {
        NextTokS::Tok(TokS::LParen, i + 1)
    } else if c == ')' {
        NextTokS::Tok(TokS::RParen, i + 1)
    } else if c == '[' {
        NextTokS::Tok(TokS::LBracket, i + 1)
    } else if c == ']' {
        NextTokS::Tok(TokS::RBracket, i + 1)
    } else if c == '{' {
        NextTokS::Tok(TokS::LBrace, i + 1)
    } else if c == '}' {
        NextTokS::Tok(TokS::RBrace, i + 1)
    } else if c == ',' {
        NextTokS::Tok(TokS::Comma, i + 1)
    } else if c == ';' {
        NextTokS::Tok(TokS::Semi, i + 1)
    } else if c == ':' {
        NextTokS::Tok(TokS::Colon, i + 1)
    } else if c == '+' {
        NextTokS::Tok(TokS::Plus, i + 1)
    } else if c == '-' {
        NextTokS::Tok(TokS::Minus, i + 1)
    } else if c == '*' {
        NextTokS::Tok(TokS::Star, i + 1)
    } else if c == '/' {
        NextTokS::Tok(TokS::Slash, i + 1)
    } else if c == '<' {
        if i + 1 < cs.len() && cs[i + 1] == '=' {
            NextTokS::Tok(TokS::Le, i + 2)
        } else {
            NextTokS::Tok(TokS::Lt, i + 1)
        }
    } else if c == '>' {
        if i + 1 < cs.len() && cs[i + 1] == '=' {
            NextTokS::Tok(TokS::Ge, i + 2)
        } else {
            NextTokS::Tok(TokS::Gt, i + 1)
        }
    } else if c == '=' {
        if i + 1 < cs.len() && cs[i + 1] == '=' {
            NextTokS::Tok(TokS::EqEq, i + 2)
        } else {
            NextTokS::Tok(TokS::Assign, i + 1)
        }
    } else {
        NextTokS::Fail
    }
}

/// The outcome of tokenizing: the token shapes, or a failure.
pub ghost enum TokOut {
    Toks(Seq<TokS>),
    Fail,
}

/// The token shapes of the text from position `i` on: one `next_token_s`
/// step after another until the text ends, failing where a step fails.
pub open spec fn tokenize_s(cs: Seq<char>, i: int) -> TokOut
    decreases cs.len() - i,
{
    if i < 0 || i >= cs.len() {
        TokOut::Toks(Seq::empty())
    } else {
        match next_token_s(cs, i) {
            NextTokS::White(j) => if i < j <= cs.len() {
                tokenize_s(cs, j)
            } else {
                TokOut::Fail
            },
            NextTokS::Tok(t, j) => if i < j <= cs.len() {
                match tokenize_s(cs, j) {
                    TokOut::Toks(rest) => TokOut::Toks(seq![t] + rest),
                    TokOut::Fail => TokOut::Fail,
                }
            } else {
                TokOut::Fail
            },
            NextTokS::Fail => TokOut::Fail,
        }
    }
}

enum NextTok {
    White(usize),
    Tok(Token, usize),
    Fail(ParseError),
}

/// One tokenizer step, as executable code.
fn next_token(cs: &Vec<char>, i: usize) -> (r: NextTok)
    requires
        i < cs@.len(),
    ensures
        match r {
            NextTok::White(j) => next_token_s(cs@, i as int) == NextTokS::White(j as int) && i < j
                <= cs@.len(),
            NextTok::Tok(t, j) => next_token_s(cs@, i as int) == NextTokS::Tok(
                t.deep(),
                j as int,
            ) && i < j <= cs@.len(),
            NextTok::Fail(_e) => next_token_s(cs@, i as int) == NextTokS::Fail,
        },
{
    let n = cs.len();
    let c = cs[i];
    if is_space(c) {
        NextTok::White(i + 1)
    } else if is_digit_x(c) {
        let j = scan_digits(cs, i);
        let ghost run = cs@.subrange(i as int, j as int);
        let mut acc: u128 = 0;
        let mut k = i;
        while k < j
            invariant
                cs@.len() <= usize::MAX,
                i < cs@.len(),
                c == cs@[i as int],
                !is_space_s(c),
                crate::semantics::is_digit_char(c),
                j as int == scan_digits_s(cs@, i as int),
                i <= k <= j <= cs@.len(),
                run == cs@.subrange(i as int, j as int),
                forall|m: int| i <= m < j ==> crate::semantics::is_digit_char(#[trigger] cs@[m]),
                acc == crate::semantics::digits_val(run.take(k - i)),
                acc <= 0x7FFF_FFFF_FFFF_FFFFu128,
            decreases j - k,
        {
            let u = cs[k] as u32;
            let d: u128 = if u >= 48 && u <= 57 {
                (u - 48) as u128
            } else {
                0
            };
            acc = acc * 10 + d;
            k = k + 1;
            proof {
                assert(run.take(k - i).drop_last() =~= run.take(k - 1 - i));
                assert(run.take(k - i).last() == cs@[k - 1]);
            }
            if acc > 0x7FFF_FFFF_FFFF_FFFFu128 {
                proof {
                    crate::semantics::lemma_digits_take_mono(run, k - i);
                }
                return NextTok::Fail(
                    ParseError { kind: ParseErrorKind::InvalidLiteral, pos: k },
                );
            }
        }
        proof {
            assert(run.take(j - i) =~= run);
        }
        NextTok::Tok(Token::Int(acc as i64), j)
    } else if is_ident_start_x(c) {
        let j = scan_ident(cs, i);
        let ghost run = cs@.subrange(i as int, j as int);
        let mut name = String::new();
        let mut k = i;
        while k < j
            invariant
                cs@.len() <= usize::MAX,
                i <= k <= j <= cs@.len(),
                run == cs@.subrange(i as int, j as int),
                name@ == run.take(k - i),
            decreases j - k,
        {
            crate::data::push_char(&mut name, cs[k]);
            k = k + 1;
            proof {
                assert(name@ =~= run.take(k - i));
            }
        }
        proof {
            assert(run.take(j - i) =~= run);
        }
        let tok = if crate::strmap::string_eq(&name, &String::from_str("def")) {
            Token::KwDef
        } else if crate::strmap::string_eq(&name, &String::from_str("if")) {
            Token::KwIf
        } else if crate::strmap::string_eq(&name, &String::from_str("for")) {
            Token::KwFor
        } else if crate::strmap::string_eq(&name, &String::from_str("in")) {
            Token::KwIn
        } else {
            Token::Ident(name)
        };
        NextTok::Tok(tok, j)
    } else if c == '"' {
        let j = scan_str(cs, i + 1);
        if j == cs.len() {
            return NextTok::Fail(ParseError { kind: ParseErrorKind::UnexpectedEnd, pos: i });
        }
        let ghost run = cs@.subrange(i + 1, j as int);
        let mut text = String::new();
        let mut k = i + 1;
        while k < j
            invariant
                cs@.len() <= usize::MAX,
                i + 1 <= k <= j <= cs@.len(),
                run == cs@.subrange(i + 1, j as int),
                text@ == run.take(k - i - 1),
            decreases j - k,
        {
            crate::data::push_char(&mut text, cs[k]);
            k = k + 1;
            proof {
                assert(text@ =~= run.take(k - i - 1));
            }
        }
        proof {
            assert(run.take(j - (i + 1)) =~= run);
        }
        NextTok::Tok(Token::Str(text), j + 1)
    } else if c == '(' {
        NextTok::Tok(Token::LParen, i + 1)
    } else if c == ')' {
        NextTok::Tok(Token::RParen, i + 1)
    } else if c == '[' {
        NextTok::Tok(Token::LBracket, i + 1)
    } else if c == ']' {
        NextTok::Tok(Token::RBracket, i + 1)
    } else if c == '{' {
        NextTok::Tok(Token::LBrace, i + 1)
    } else if c == '}' {
        NextTok::Tok(Token::RBrace, i + 1)
    } else if c == ',' {
        NextTok::Tok(Token::Comma, i + 1)
    } else if c == ';' {
        NextTok::Tok(Token::Semi, i + 1)
    } else if c == ':' {
        NextTok::Tok(Token::Colon, i + 1)
    } else if c == '+' {
        NextTok::Tok(Token::Plus, i + 1)
    } else if c == '-' {
        NextTok::Tok(Token::Minus, i + 1)
    } else if c == '*' {
        NextTok::Tok(Token::Star, i + 1)
    } else if c == '/' {
        NextTok::Tok(Token::Slash, i + 1)
    } else if c == '<' {
        if i + 1 < cs.len() && cs[i + 1] == '=' {
            NextTok::Tok(Token::Le, i + 2)
        } else {
            NextTok::Tok(Token::Lt, i + 1)
        }
    } else if c == '>' {
        if i + 1 < cs.len() && cs[i + 1] == '=' {
            NextTok::Tok(Token::Ge, i + 2)
        } else {
            NextTok::Tok(Token::Gt, i + 1)
        }
    } else if c == '=' {
        if i + 1 < cs.len() && cs[i + 1] == '=' {
            NextTok::Tok(Token::EqEq, i + 2)
        } else {
            NextTok::Tok(Token::Assign, i + 1)
        }
    } else {
        NextTok::Fail(ParseError { kind: ParseErrorKind::UnexpectedChar, pos: i })
    }
}

/// How a tokenizing outcome looks after earlier tokens are put in front.
pub open spec fn tok_prepend(pre: Seq<TokS>, o: TokOut) -> TokOut {
    match o {
        TokOut::Toks(rest) => TokOut::Toks(pre + rest),
        TokOut::Fail => TokOut::Fail,
    }
}

/// Turns source characters into tokens: exactly the tokens `tokenize_s`
/// gives the text, or a failure exactly where `tokenize_s` fails.
pub fn tokenize(cs: &Vec<char>) -> (r: Result<Vec<Token>, ParseError>)
    ensures
        match r {
            Ok(toks) => tokenize_s(cs@, 0) == TokOut::Toks(deep_tok_seq(toks@)),
            Err(_e) => tokenize_s(cs@, 0) == TokOut::Fail,
        },
{
    broadcast use lemma_deep_tok_seq;

    let mut toks: Vec<Token> = Vec::new();
    let mut i: usize = 0;
    proof {
        assert(deep_tok_seq(toks@) =~= Seq::<TokS>::empty());
        match tokenize_s(cs@, 0) {
            TokOut::Toks(rest) => {
                assert(Seq::<TokS>::empty() + rest =~= rest);
            },
            TokOut::Fail => {},
        }
    }
    while i < cs.len()
        invariant
            i <= cs@.len(),
            tokenize_s(cs@, 0) == tok_prepend(deep_tok_seq(toks@), tokenize_s(cs@, i as int)),
        decreases cs@.len() - i,
    {
        let ghost pre = deep_tok_seq(toks@);
        match next_token(cs, i) {
            NextTok::White(j) => {
                i = j;
            },
            NextTok::Tok(t, j) => {
                proof {
                    let ghost tv = t.deep();
                    lemma_deep_tok_seq(toks@.push(t));
                    lemma_deep_tok_seq(toks@);
                    assert(deep_tok_seq(toks@.push(t)) =~= pre + seq![tv]) by {
                        assert(forall|m: int|
                            0 <= m < toks@.len() ==> toks@.push(t)[m] == toks@[m]);
                        assert(toks@.push(t)[toks@.len() as int] == t);
                    }
                    match tokenize_s(cs@, j as int) {
                        TokOut::Toks(rest) => {
                            assert(pre + (seq![tv] + rest) =~= (pre + seq![tv]) + rest);
                        },
                        TokOut::Fail => {},
                    }
                }
                toks.push(t);
                i = j;
            },
            NextTok::Fail(e) => {
                return Err(e);
            },
        }
    }
    proof {
        match tokenize_s(cs@, 0) {
            TokOut::Toks(all) => {
                assert(deep_tok_seq(toks@) + Seq::<TokS>::empty() =~= deep_tok_seq(toks@));
            },
            TokOut::Fail => {},
        }
    }
    Ok(toks)
}

/// A parsed node and the position after it, or a failure.
pub ghost enum PAst {
    Node(AstS, int),
    Fail,
}

/// A parsed node list and the position after it, or a failure.
pub ghost enum PList {
    Nodes(Seq<AstS>, int),
    Fail,
}

/// A parsed parameter-name list and the position after it, or a failure.
pub ghost enum PParams {
    Params(Seq<Seq<char>>, int),
    Fail,
}

/// A whole parsed program, or a failure.
pub ghost enum PProg {
    Prog(Seq<AstS>),
    Fail,
}

/// An atom: a literal, an identifier, a call, an array literal or a
/// parenthesized expression.
pub open spec fn p_atom(toks: Seq<TokS>, pos: int) -> PAst
    decreases toks.len() - pos, 0int,
{
    if pos < 0 || pos >= toks.len() {
        PAst::Fail
    } else {
        match toks[pos] {
            TokS::Int(n) => PAst::Node(AstS::Int(n), pos + 1),
            TokS::Str(s) => PAst::Node(AstS::Str(s), pos + 1),
            TokS::Ident(name) => if pos + 1 < toks.len() && toks[pos + 1] is LParen {
                match p_args(toks, pos + 2) {
                    PList::Nodes(args, p2) => PAst::Node(
                        AstS::FunctionCall { id: name, args },
                        p2,
                    ),
                    PList::Fail => PAst::Fail,
                }
            } else {
                PAst::Node(AstS::Identifier(name), pos + 1)
            },
            TokS::LBracket => if pos + 1 < toks.len() && toks[pos + 1] is RBracket {
                PAst::Node(AstS::Array(Seq::empty()), pos + 2)
            } else {
                match p_elems_go(toks, pos + 1) {
                    PList::Nodes(es, p2) => PAst::Node(AstS::Array(es), p2),
                    PList::Fail => PAst::Fail,
                }
            },
            TokS::LParen => match p_expr(toks, pos + 1) {
                PAst::Node(e, p2) => if p2 < toks.len() && toks[p2] is RParen {
                    PAst::Node(e, p2 + 1)
                } else {
                    PAst::Fail
                },
                PAst::Fail => PAst::Fail,
            },
            _ => PAst::Fail,
        }
    }
}

/// Postfix indexing: an atom followed by any number of `[index]` accesses,
/// associating to the left.
pub open spec fn p_postfix(toks: Seq<TokS>, pos: int) -> PAst
    decreases toks.len() - pos, 2int,
{
    match p_atom(toks, pos) {
        PAst::Node(target, p) => if pos < p <= toks.len() {
            p_postfix_more(toks, target, p)
        } else {
            PAst::Fail
        },
        PAst::Fail => PAst::Fail,
    }
}

pub open spec fn p_postfix_more(toks: Seq<TokS>, target: AstS, p: int) -> PAst
    decreases toks.len() - p, 1int,
{
    if 0 <= p < toks.len() && toks[p] is LBracket {
        match p_expr(toks, p + 1) {
            PAst::Node(ix, p2) => if p2 < toks.len() && toks[p2] is RBracket && p < p2 + 1 {
                p_postfix_more(
                    toks,
                    AstS::IndexAccess { target: Box::new(target), index: Box::new(ix) },
                    p2 + 1,
                )
            } else {
                PAst::Fail
            },
            PAst::Fail => PAst::Fail,
        }
    } else {
        PAst::Node(target, p)
    }
}

/// The `*`/`/` level, associating to the left.
pub open spec fn p_muldiv(toks: Seq<TokS>, pos: int) -> PAst
    decreases toks.len() - pos, 4int,
{
    match p_postfix(toks, pos) {
        PAst::Node(lhs, p) => if pos < p <= toks.len() {
            p_muldiv_more(toks, lhs, p)
        } else {
            PAst::Fail
        },
        PAst::Fail => PAst::Fail,
    }
}

pub open spec fn p_muldiv_more(toks: Seq<TokS>, lhs: AstS, p: int) -> PAst
    decreases toks.len() - p, 3int,
{
    if 0 <= p < toks.len() && (toks[p] is Star || toks[p] is Slash) {
        let op = if toks[p] is Star {
            BinOp::Mul
        } else {
            BinOp::Div
        };
        match p_postfix(toks, p + 1) {
            PAst::Node(rhs, p2) => if p < p2 <= toks.len() {
                p_muldiv_more(
                    toks,
                    AstS::BinaryOp { op, left: Box::new(lhs), right: Box::new(rhs) },
                    p2,
                )
            } else {
                PAst::Fail
            },
            PAst::Fail => PAst::Fail,
        }
    } else {
        PAst::Node(lhs, p)
    }
}

/// The `+`/`-` level, associating to the left.
pub open spec fn p_addsub(toks: Seq<TokS>, pos: int) -> PAst
    decreases toks.len() - pos, 6int,
{
    match p_muldiv(toks, pos) {
        PAst::Node(lhs, p) => if pos < p <= toks.len() {
            p_addsub_more(toks, lhs, p)
        } else {
            PAst::Fail
        },
        PAst::Fail => PAst::Fail,
    }
}

pub open spec fn p_addsub_more(toks: Seq<TokS>, lhs: AstS, p: int) -> PAst
    decreases toks.len() - p, 5int,
{
    if 0 <= p < toks.len() && (toks[p] is Plus || toks[p] is Minus) {
        let op = if toks[p] is Plus {
            BinOp::Add
        } else {
            BinOp::Sub
        };
        match p_muldiv(toks, p + 1) {
            PAst::Node(rhs, p2) => if p < p2 <= toks.len() {
                p_addsub_more(
                    toks,
                    AstS::BinaryOp { op, left: Box::new(lhs), right: Box::new(rhs) },
                    p2,
                )
            } else {
                PAst::Fail
            },
            PAst::Fail => PAst::Fail,
        }
    } else {
        PAst::Node(lhs, p)
    }
}

/// Whether a token is a comparison operator, and which.
pub open spec fn cmp_op_s(t: TokS) -> BinOp {
    match t {
        TokS::Lt => BinOp::Lt,
        TokS::Gt => BinOp::Gt,
        TokS::Le => BinOp::Le,
        TokS::Ge => BinOp::Ge,
        _ => BinOp::Eq,
    }
}

pub open spec fn is_cmp_s(t: TokS) -> bool {
    t is Lt || t is Gt || t is Le || t is Ge || t is EqEq
}

/// A whole expression: the comparison level, loosest of all, associating
/// to the left.
pub open spec fn p_expr(toks: Seq<TokS>, pos: int) -> PAst
    decreases toks.len() - pos, 8int,
{
    match p_addsub(toks, pos) {
        PAst::Node(lhs, p) => if pos < p <= toks.len() {
            p_expr_more(toks, lhs, p)
        } else {
            PAst::Fail
        },
        PAst::Fail => PAst::Fail,
    }
}

pub open spec fn p_expr_more(toks: Seq<TokS>, lhs: AstS, p: int) -> PAst
    decreases toks.len() - p, 7int,
{
    if 0 <= p < toks.len() && is_cmp_s(toks[p]) {
        let op = cmp_op_s(toks[p]);
        match p_addsub(toks, p + 1) {
            PAst::Node(rhs, p2) => if p < p2 <= toks.len() {
                p_expr_more(
                    toks,
                    AstS::BinaryOp { op, left: Box::new(lhs), right: Box::new(rhs) },
                    p2,
                )
            } else {
                PAst::Fail
            },
            PAst::Fail => PAst::Fail,
        }
    } else {
        PAst::Node(lhs, p)
    }
}

/// Call arguments after the opening parenthesis, through the closing one.
pub open spec fn p_args(toks: Seq<TokS>, pos: int) -> PList
    decreases toks.len() - pos, 10int,
{
    if 0 <= pos < toks.len() && toks[pos] is RParen {
        PList::Nodes(Seq::empty(), pos + 1)
    } else {
        p_args_go(toks, pos)
    }
}

pub open spec fn p_args_go(toks: Seq<TokS>, p: int) -> PList
    decreases toks.len() - p, 9int,
{
    match p_expr(toks, p) {
        PAst::Node(e, p2) => if p2 < toks.len() && toks[p2] is Comma && p < p2 + 1 {
            match p_args_go(toks, p2 + 1) {
                PList::Nodes(es, p3) => PList::Nodes(seq![e] + es, p3),
                PList::Fail => PList::Fail,
            }
        } else if p2 < toks.len() && toks[p2] is RParen {
            PList::Nodes(seq![e], p2 + 1)
        } else {
            PList::Fail
        },
        PAst::Fail => PList::Fail,
    }
}

/// Array elements after the opening bracket, at least one, through the
/// closing bracket.
pub open spec fn p_elems_go(toks: Seq<TokS>, p: int) -> PList
    decreases toks.len() - p, 9int,
{
    match p_expr(toks, p) {
        PAst::Node(e, p2) => if p2 < toks.len() && toks[p2] is Comma && p < p2 + 1 {
            match p_elems_go(toks, p2 + 1) {
                PList::Nodes(es, p3) => PList::Nodes(seq![e] + es, p3),
                PList::Fail => PList::Fail,
            }
        } else if p2 < toks.len() && toks[p2] is RBracket {
            PList::Nodes(seq![e], p2 + 1)
        } else {
            PList::Fail
        },
        PAst::Fail => PList::Fail,
    }
}

/// A parameter list after the opening parenthesis, through the closing
/// one: empty, or `name: Type` items separated by commas. Only the names
/// matter to the semantics; declared types are advisory.
pub open spec fn p_params(toks: Seq<TokS>, pos: int) -> PParams
    decreases toks.len() - pos, 1int,
{
    if 0 <= pos < toks.len() && toks[pos] is RParen {
        PParams::Params(Seq::empty(), pos + 1)
    } else {
        p_params_items(toks, pos)
    }
}

pub open spec fn p_params_items(toks: Seq<TokS>, pos: int) -> PParams
    decreases toks.len() - pos, 0int,
{
    if pos < 0 || toks.len() - pos < 3 {
        PParams::Fail
    } else {
        match (toks[pos], toks[pos + 1], toks[pos + 2]) {
            (TokS::Ident(name), TokS::Colon, TokS::Ident(_ty)) => if pos + 3 < toks.len()
                && toks[pos + 3] is Comma {
                match p_params_items(toks, pos + 4) {
                    PParams::Params(ps, p2) => PParams::Params(seq![name] + ps, p2),
                    PParams::Fail => PParams::Fail,
                }
            } else if pos + 3 < toks.len() && toks[pos + 3] is RParen {
                PParams::Params(seq![name], pos + 4)
            } else {
                PParams::Fail
            },
            _ => PParams::Fail,
        }
    }
}

/// One statement, its terminating semicolon included.
pub open spec fn p_stmt(toks: Seq<TokS>, pos: int) -> PAst
    decreases toks.len() - pos, 11int,
{
    if pos < 0 || pos >= toks.len() {
        PAst::Fail
    } else {
        match toks[pos] {
            TokS::KwDef => if toks.len() - pos < 3 {
                PAst::Fail
            } else {
                match (toks[pos + 1], toks[pos + 2]) {
                    (TokS::Ident(name), TokS::LParen) => match p_params(toks, pos + 3) {
                        PParams::Params(params, p) => if pos < p && p < toks.len() && toks[p]
                            is LBrace {
                            match p_block(toks, p + 1) {
                                PList::Nodes(body, p2) => if p2 < toks.len() && toks[p2]
                                    is Semi {
                                    PAst::Node(
                                        AstS::FunctionDefinition { id: name, params, body },
                                        p2 + 1,
                                    )
                                } else {
                                    PAst::Fail
                                },
                                PList::Fail => PAst::Fail,
                            }
                        } else {
                            PAst::Fail
                        },
                        PParams::Fail => PAst::Fail,
                    },
                    _ => PAst::Fail,
                }
            },
            TokS::KwIf => if !(pos + 1 < toks.len() && toks[pos + 1] is LParen) {
                PAst::Fail
            } else {
                match p_expr(toks, pos + 2) {
                    PAst::Node(cond, p) => if pos < p && p + 1 < toks.len() && toks[p]
                        is RParen && toks[p + 1] is LBrace {
                        match p_block(toks, p + 2) {
                            PList::Nodes(body, p2) => if p2 < toks.len() && toks[p2] is Semi {
                                PAst::Node(AstS::If { cond: Box::new(cond), body }, p2 + 1)
                            } else {
                                PAst::Fail
                            },
                            PList::Fail => PAst::Fail,
                        }
                    } else {
                        PAst::Fail
                    },
                    PAst::Fail => PAst::Fail,
                }
            },
            TokS::KwFor => if toks.len() - pos < 3 {
                PAst::Fail
            } else {
                match (toks[pos + 1], toks[pos + 2]) {
                    (TokS::Ident(var), TokS::KwIn) => match p_expr(toks, pos + 3) {
                        PAst::Node(iter, p) => if pos < p && p < toks.len() && toks[p]
                            is LBrace {
                            match p_block(toks, p + 1) {
                                PList::Nodes(body, p2) => if p2 < toks.len() && toks[p2]
                                    is Semi {
                                    PAst::Node(
                                        AstS::For { var, iter: Box::new(iter), body },
                                        p2 + 1,
                                    )
                                } else {
                                    PAst::Fail
                                },
                                PList::Fail => PAst::Fail,
                            }
                        } else {
                            PAst::Fail
                        },
                        PAst::Fail => PAst::Fail,
                    },
                    _ => PAst::Fail,
                }
            },
            TokS::Ident(name) => if pos + 1 >= toks.len() {
                PAst::Fail
            } else {
                match toks[pos + 1] {
                    TokS::Assign => match p_expr(toks, pos + 2) {
                        PAst::Node(e, p) => if p < toks.len() && toks[p] is Semi {
                            PAst::Node(AstS::Assign { id: name, expr: Box::new(e) }, p + 1)
                        } else {
                            PAst::Fail
                        },
                        PAst::Fail => PAst::Fail,
                    },
                    TokS::LBracket => match p_expr(toks, pos + 2) {
                        PAst::Node(index, p) => if pos < p && p + 1 < toks.len() && toks[p]
                            is RBracket && toks[p + 1] is Assign {
                            match p_expr(toks, p + 2) {
                                PAst::Node(value, p2) => if p2 < toks.len() && toks[p2]
                                    is Semi {
                                    PAst::Node(
                                        AstS::IndexAssign {
                                            id: name,
                                            index: Box::new(index),
                                            value: Box::new(value),
                                        },
                                        p2 + 1,
                                    )
                                } else {
                                    PAst::Fail
                                },
                                PAst::Fail => PAst::Fail,
                            }
                        } else {
                            PAst::Fail
                        },
                        PAst::Fail => PAst::Fail,
                    },
                    TokS::LParen => match p_args(toks, pos + 2) {
                        PList::Nodes(args, p) => if p < toks.len() && toks[p] is Semi {
                            PAst::Node(AstS::FunctionCall { id: name, args }, p + 1)
                        } else {
                            PAst::Fail
                        },
                        PList::Fail => PAst::Fail,
                    },
                    _ => PAst::Fail,
                }
            },
            _ => PAst::Fail,
        }
    }
}

/// Statements after an opening brace, through the closing one.
pub open spec fn p_block(toks: Seq<TokS>, p: int) -> PList
    decreases toks.len() - p, 12int,
{
    if p < 0 || p >= toks.len() {
        PList::Fail
    } else if toks[p] is RBrace {
        PList::Nodes(Seq::empty(), p + 1)
    } else {
        match p_stmt(toks, p) {
            PAst::Node(s, p2) => if p < p2 <= toks.len() {
                match p_block(toks, p2) {
                    PList::Nodes(ss, p3) => PList::Nodes(seq![s] + ss, p3),
                    PList::Fail => PList::Fail,
                }
            } else {
                PList::Fail
            },
            PAst::Fail => PList::Fail,
        }
    }
}

/// A whole token stream as a statement sequence.
pub open spec fn p_program(toks: Seq<TokS>, p: int) -> PProg
    decreases toks.len() - p, 13int,
{
    if p < 0 || p >= toks.len() {
        PProg::Prog(Seq::empty())
    } else {
        match p_stmt(toks, p) {
            PAst::Node(s, p2) => if p < p2 <= toks.len() {
                match p_program(toks, p2) {
                    PProg::Prog(ss) => PProg::Prog(seq![s] + ss),
                    PProg::Fail => PProg::Fail,
                }
            } else {
                PProg::Fail
            },
            PAst::Fail => PProg::Fail,
        }
    }
}

/// What whole source text parses to: its token shapes read as a program.
pub open spec fn p_code(cs: Seq<char>) -> PProg {
    match tokenize_s(cs, 0) {
        TokOut::Toks(ts) => p_program(ts, 0),
        TokOut::Fail => PProg::Fail,
    }
}

/// A cloned identifier text, when the token is an identifier.
fn ident_text(t: &Token) -> (r: Option<String>)
    ensures
        match r {
            Some(s) => t.deep() == TokS::Ident(s@),
            None => !(t.deep() is Ident),
        },
{
    match t {
        Token::Ident(s) => Some(s.clone()),
        _ => None,
    }
}

/// Parses one expression at the comparison level: exactly what `p_expr`
/// says of the token shapes.
#[verifier::rlimit(100)]
#[verifier::spinoff_prover]
fn parse_expr(toks: &Vec<Token>, pos: usize) -> (r: Result<(Ast, usize), ParseError>)
    requires
        pos <= toks@.len(),
    ensures
        match r {
            Ok(t) => pos < t.1 <= toks@.len() && p_expr(deep_tok_seq(toks@), pos as int)
                == PAst::Node(t.0.deep(), t.1 as int),
            Err(_e) => p_expr(deep_tok_seq(toks@), pos as int) == PAst::Fail,
        },
    decreases toks@.len() - pos, 4int,
{
    broadcast use lemma_deep_tok_seq;

    let ghost tv = deep_tok_seq(toks@);
    let (mut lhs, mut p) = match parse_addsub(toks, pos) {
        Ok(t) => t,
        Err(e) => {
            return Err(e);
        },
    };
    loop
        invariant
            pos < p <= toks@.len(),
            tv == deep_tok_seq(toks@),
            p_expr(tv, pos as int) == p_expr_more(tv, lhs.deep(), p as int),
        decreases toks@.len() - p,
    {
        broadcast use lemma_deep_tok_seq;

        let op = if p < toks.len() {
            match &toks[p] {
                Token::Lt => Some(BinOp::Lt),
                Token::Gt => Some(BinOp::Gt),
                Token::Le => Some(BinOp::Le),
                Token::Ge => Some(BinOp::Ge),
                Token::EqEq => Some(BinOp::Eq),
                _ => None,
            }
        } else {
            None
        };
        match op {
            Some(op) => {
                let (rhs, p2) = match parse_addsub(toks, p + 1) {
                    Ok(t) => t,
                    Err(e) => {
                        return Err(e);
                    },
                };
                lhs = Ast::BinaryOp { op, left: Box::new(lhs), right: Box::new(rhs) };
                p = p2;
            },
            None => {
                return Ok((lhs, p));
            },
        }
    }
}

/// Parses one expression at the `+`/`-` level: exactly what `p_addsub`
/// says.
#[verifier::rlimit(100)]
#[verifier::spinoff_prover]
fn parse_addsub(toks: &Vec<Token>, pos: usize) -> (r: Result<(Ast, usize), ParseError>)
    requires
        pos <= toks@.len(),
    ensures
        match r {
            Ok(t) => pos < t.1 <= toks@.len() && p_addsub(deep_tok_seq(toks@), pos as int)
                == PAst::Node(t.0.deep(), t.1 as int),
            Err(_e) => p_addsub(deep_tok_seq(toks@), pos as int) == PAst::Fail,
        },
    decreases toks@.len() - pos, 3int,
{
    broadcast use lemma_deep_tok_seq;

    let ghost tv = deep_tok_seq(toks@);
    let (mut lhs, mut p) = match parse_muldiv(toks, pos) {
        Ok(t) => t,
        Err(e) => {
            return Err(e);
        },
    };
    loop
        invariant
            pos < p <= toks@.len(),
            tv == deep_tok_seq(toks@),
            p_addsub(tv, pos as int) == p_addsub_more(tv, lhs.deep(), p as int),
        decreases toks@.len() - p,
    {
        broadcast use lemma_deep_tok_seq;

        let op = if p < toks.len() {
            match &toks[p] {
                Token::Plus => Some(BinOp::Add),
                Token::Minus => Some(BinOp::Sub),
                _ => None,
            }
        } else {
            None
        };
        match op {
            Some(op) => {
                let (rhs, p2) = match parse_muldiv(toks, p + 1) {
                    Ok(t) => t,
                    Err(e) => {
                        return Err(e);
                    },
                };
                lhs = Ast::BinaryOp { op, left: Box::new(lhs), right: Box::new(rhs) };
                p = p2;
            },
            None => {
                return Ok((lhs, p));
            },
        }
    }
}

/// Parses one expression at the `*`/`/` level: exactly what `p_muldiv`
/// says.
#[verifier::rlimit(100)]
#[verifier::spinoff_prover]
fn parse_muldiv(toks: &Vec<Token>, pos: usize) -> (r: Result<(Ast, usize), ParseError>)
    requires
        pos <= toks@.len(),
    ensures
        match r {
            Ok(t) => pos < t.1 <= toks@.len() && p_muldiv(deep_tok_seq(toks@), pos as int)
                == PAst::Node(t.0.deep(), t.1 as int),
            Err(_e) => p_muldiv(deep_tok_seq(toks@), pos as int) == PAst::Fail,
        },
    decreases toks@.len() - pos, 2int,
{
    broadcast use lemma_deep_tok_seq;

    let ghost tv = deep_tok_seq(toks@);
    let (mut lhs, mut p) = match parse_postfix(toks, pos) {
        Ok(t) => t,
        Err(e) => {
            return Err(e);
        },
    };
    loop
        invariant
            pos < p <= toks@.len(),
            tv == deep_tok_seq(toks@),
            p_muldiv(tv, pos as int) == p_muldiv_more(tv, lhs.deep(), p as int),
        decreases toks@.len() - p,
    {
        broadcast use lemma_deep_tok_seq;

        let op = if p < toks.len() {
            match &toks[p] {
                Token::Star => Some(BinOp::Mul),
                Token::Slash => Some(BinOp::Div),
                _ => None,
            }
        } else {
            None
        };
        match op {
            Some(op) => {
                let (rhs, p2) = match parse_postfix(toks, p + 1) {
                    Ok(t) => t,
                    Err(e) => {
                        return Err(e);
                    },
                };
                lhs = Ast::BinaryOp { op, left: Box::new(lhs), right: Box::new(rhs) };
                p = p2;
            },
            None => {
                return Ok((lhs, p));
            },
        }
    }
}

/// Parses an atom followed by any number of `[index]` accesses: exactly
/// what `p_postfix` says.
#[verifier::rlimit(100)]
#[verifier::spinoff_prover]
fn parse_postfix(toks: &Vec<Token>, pos: usize) -> (r: Result<(Ast, usize), ParseError>)
    requires
        pos <= toks@.len(),
    ensures
        match r {
            Ok(t) => pos < t.1 <= toks@.len() && p_postfix(deep_tok_seq(toks@), pos as int)
                == PAst::Node(t.0.deep(), t.1 as int),
            Err(_e) => p_postfix(deep_tok_seq(toks@), pos as int) == PAst::Fail,
        },
    decreases toks@.len() - pos, 1int,
{
    broadcast use lemma_deep_tok_seq;

    let ghost tv = deep_tok_seq(toks@);
    let (mut target, mut p) = match parse_atom(toks, pos) {
        Ok(t) => t,
        Err(e) => {
            return Err(e);
        },
    };
    loop
        invariant
            pos < p <= toks@.len(),
            tv == deep_tok_seq(toks@),
            p_postfix(tv, pos as int) == p_postfix_more(tv, target.deep(), p as int),
        decreases toks@.len() - p,
    {
        broadcast use lemma_deep_tok_seq;

        let is_open = p < toks.len() && match &toks[p] {
            Token::LBracket => true,
            _ => false,
        };
        if is_open {
            let (index, p2) = match parse_expr(toks, p + 1) {
                Ok(t) => t,
                Err(e) => {
                    return Err(e);
                },
            };
            if p2 < toks.len() && (match &toks[p2] {
                Token::RBracket => true,
                _ => false,
            }) {
                target = Ast::IndexAccess { target: Box::new(target), index: Box::new(index) };
                p = p2 + 1;
            } else {
                return Err(
                    ParseError {
                        kind: if p2 < toks.len() {
                            ParseErrorKind::UnexpectedToken
                        } else {
                            ParseErrorKind::UnexpectedEnd
                        },
                        pos: p2,
                    },
                );
            }
        } else {
            return Ok((target, p));
        }
    }
}

/// Parses a literal, an identifier, a call, an array literal or a
/// parenthesized expression: exactly what `p_atom` says.
#[verifier::rlimit(100)]
#[verifier::spinoff_prover]
fn parse_atom(toks: &Vec<Token>, pos: usize) -> (r: Result<(Ast, usize), ParseError>)
    requires
        pos <= toks@.len(),
    ensures
        match r {
            Ok(t) => pos < t.1 <= toks@.len() && p_atom(deep_tok_seq(toks@), pos as int)
                == PAst::Node(t.0.deep(), t.1 as int),
            Err(_e) => p_atom(deep_tok_seq(toks@), pos as int) == PAst::Fail,
        },
    decreases toks@.len() - pos, 0int,
{
    broadcast use lemma_deep_tok_seq;

    let ghost tv = deep_tok_seq(toks@);
    if pos >= toks.len() {
        return Err(ParseError { kind: ParseErrorKind::UnexpectedEnd, pos });
    }
    match &toks[pos] {
        Token::Int(n) => Ok((Ast::Int(*n), pos + 1)),
        Token::Str(s) => Ok((Ast::String(s.clone()), pos + 1)),
        Token::Ident(name) => {
            if pos + 1 < toks.len() && (match &toks[pos + 1] {
                Token::LParen => true,
                _ => false,
            }) {
                let (args, p2) = match parse_args(toks, pos + 2) {
                    Ok(t) => t,
                    Err(e) => {
                        return Err(e);
                    },
                };
                Ok((Ast::FunctionCall { id: name.clone(), args }, p2))
            } else {
                Ok((Ast::Identifier(name.clone()), pos + 1))
            }
        },
        Token::LBracket => {
            let mut elems: Vec<Ast> = Vec::new();
            let mut p = pos + 1;
            if p < toks.len() && (match &toks[p] {
                Token::RBracket => true,
                _ => false,
            }) {
                proof {
                    assert(deep_ast_seq(elems@) =~= Seq::<AstS>::empty());
                }
                return Ok((Ast::Array(elems), p + 1));
            }
            proof {
                match p_elems_go(tv, p as int) {
                    PList::Nodes(es, p2) => {
                        assert(deep_ast_seq(elems@) + es =~= es);
                    },
                    PList::Fail => {},
                }
            }
            loop
                invariant
                    pos < p <= toks@.len(),
                    tv == deep_tok_seq(toks@),
                    toks@[pos as int].deep() == TokS::LBracket,
                    match p_elems_go(tv, p as int) {
                        PList::Nodes(es, p2) => p_atom(tv, pos as int) == PAst::Node(
                            AstS::Array(deep_ast_seq(elems@) + es),
                            p2,
                        ),
                        PList::Fail => p_atom(tv, pos as int) == PAst::Fail,
                    },
                decreases toks@.len() - p,
            {
                broadcast use lemma_deep_tok_seq;

                let ghost pre = deep_ast_seq(elems@);
                let (e, p2) = match parse_expr(toks, p) {
                    Ok(t) => t,
                    Err(er) => {
                        return Err(er);
                    },
                };
                let ghost ev = e.deep();
                proof {
                    crate::ast::lemma_deep_ast_seq(elems@.push(e));
                    crate::ast::lemma_deep_ast_seq(elems@);
                    assert(deep_ast_seq(elems@.push(e)) =~= pre + seq![ev]);
                }
                elems.push(e);
                if p2 < toks.len() && (match &toks[p2] {
                    Token::Comma => true,
                    _ => false,
                }) {
                    proof {
                        match p_elems_go(tv, p2 + 1) {
                            PList::Nodes(es2, p3) => {
                                assert(pre + (seq![ev] + es2) =~= (pre + seq![ev]) + es2);
                            },
                            PList::Fail => {},
                        }
                    }
                    p = p2 + 1;
                } else if p2 < toks.len() && (match &toks[p2] {
                    Token::RBracket => true,
                    _ => false,
                }) {
                    proof {
                        assert(pre + seq![ev] =~= deep_ast_seq(elems@));
                    }
                    return Ok((Ast::Array(elems), p2 + 1));
                } else {
                    return Err(
                        ParseError {
                            kind: if p2 < toks.len() {
                                ParseErrorKind::UnexpectedToken
                            } else {
                                ParseErrorKind::UnexpectedEnd
                            },
                            pos: p2,
                        },
                    );
                }
            }
        },
        Token::LParen => {
            let (e, p2) = match parse_expr(toks, pos + 1) {
                Ok(t) => t,
                Err(er) => {
                    return Err(er);
                },
            };
            if p2 < toks.len() && (match &toks[p2] {
                Token::RParen => true,
                _ => false,
            }) {
                Ok((e, p2 + 1))
            } else {
                Err(
                    ParseError {
                        kind: if p2 < toks.len() {
                            ParseErrorKind::UnexpectedToken
                        } else {
                            ParseErrorKind::UnexpectedEnd
                        },
                        pos: p2,
                    },
                )
            }
        },
        _ => Err(ParseError { kind: ParseErrorKind::UnexpectedToken, pos }),
    }
}

/// Parses call arguments after the opening parenthesis, through the
/// closing one: exactly what `p_args` says.
#[verifier::rlimit(100)]
#[verifier::spinoff_prover]
fn parse_args(toks: &Vec<Token>, pos: usize) -> (r: Result<(Vec<Ast>, usize), ParseError>)
    requires
        pos <= toks@.len(),
    ensures
        match r {
            Ok(t) => pos < t.1 <= toks@.len() && p_args(deep_tok_seq(toks@), pos as int)
                == PList::Nodes(deep_ast_seq(t.0@), t.1 as int),
            Err(_e) => p_args(deep_tok_seq(toks@), pos as int) == PList::Fail,
        },
    decreases toks@.len() - pos, 5int,
{
    broadcast use lemma_deep_tok_seq;

    let ghost tv = deep_tok_seq(toks@);
    let mut args: Vec<Ast> = Vec::new();
    let mut p = pos;
    if p < toks.len() && (match &toks[p] {
        Token::RParen => true,
        _ => false,
    }) {
        proof {
            assert(deep_ast_seq(args@) =~= Seq::<AstS>::empty());
        }
        return Ok((args, p + 1));
    }
    proof {
        match p_args_go(tv, p as int) {
            PList::Nodes(es, p2) => {
                assert(deep_ast_seq(args@) + es =~= es);
            },
            PList::Fail => {},
        }
    }
    loop
        invariant
            pos <= p <= toks@.len(),
            tv == deep_tok_seq(toks@),
            match p_args_go(tv, p as int) {
                PList::Nodes(es, p2) => p_args(tv, pos as int) == PList::Nodes(
                    deep_ast_seq(args@) + es,
                    p2,
                ),
                PList::Fail => p_args(tv, pos as int) == PList::Fail,
            },
        decreases toks@.len() - p,
    {
        broadcast use lemma_deep_tok_seq;

        let ghost pre = deep_ast_seq(args@);
        let (e, p2) = match parse_expr(toks, p) {
            Ok(t) => t,
            Err(er) => {
                return Err(er);
            },
        };
        let ghost ev = e.deep();
        proof {
            crate::ast::lemma_deep_ast_seq(args@.push(e));
            crate::ast::lemma_deep_ast_seq(args@);
            assert(deep_ast_seq(args@.push(e)) =~= pre + seq![ev]);
        }
        args.push(e);
        if p2 < toks.len() && (match &toks[p2] {
            Token::Comma => true,
            _ => false,
        }) {
            proof {
                match p_args_go(tv, p2 + 1) {
                    PList::Nodes(es2, p3) => {
                        assert(pre + (seq![ev] + es2) =~= (pre + seq![ev]) + es2);
                    },
                    PList::Fail => {},
                }
            }
            p = p2 + 1;
        } else if p2 < toks.len() && (match &toks[p2] {
            Token::RParen => true,
            _ => false,
        }) {
            proof {
                assert(pre + seq![ev] =~= deep_ast_seq(args@));
            }
            return Ok((args, p2 + 1));
        } else {
            return Err(
                ParseError {
                    kind: if p2 < toks.len() {
                        ParseErrorKind::UnexpectedToken
                    } else {
                        ParseErrorKind::UnexpectedEnd
                    },
                    pos: p2,
                },
            );
        }
    }
}


/// Parses a parameter list after the opening parenthesis, through the
/// closing one: exactly what `p_params` says of the declared names.
#[verifier::rlimit(100)]
#[verifier::spinoff_prover]
fn parse_params(toks: &Vec<Token>, pos: usize) -> (r: Result<
    (Vec<(String, String)>, usize),
    ParseError,
>)
    requires
        pos <= toks@.len(),
    ensures
        match r {
            Ok(t) => pos < t.1 <= toks@.len() && p_params(deep_tok_seq(toks@), pos as int)
                == PParams::Params(param_names(t.0@), t.1 as int),
            Err(_e) => p_params(deep_tok_seq(toks@), pos as int) == PParams::Fail,
        },
    decreases toks@.len() - pos,
{
    broadcast use lemma_deep_tok_seq;

    let ghost tv = deep_tok_seq(toks@);
    let mut params: Vec<(String, String)> = Vec::new();
    let mut p = pos;
    if p < toks.len() && (match &toks[p] {
        Token::RParen => true,
        _ => false,
    }) {
        proof {
            assert(param_names(params@) =~= Seq::<Seq<char>>::empty());
        }
        return Ok((params, p + 1));
    }
    proof {
        match p_params_items(tv, p as int) {
            PParams::Params(ns, p2) => {
                assert(param_names(params@) + ns =~= ns);
            },
            PParams::Fail => {},
        }
    }
    loop
        invariant
            pos <= p <= toks@.len(),
            tv == deep_tok_seq(toks@),
            match p_params_items(tv, p as int) {
                PParams::Params(ns, p2) => p_params(tv, pos as int) == PParams::Params(
                    param_names(params@) + ns,
                    p2,
                ),
                PParams::Fail => p_params(tv, pos as int) == PParams::Fail,
            },
        decreases toks@.len() - p,
    {
        broadcast use lemma_deep_tok_seq;

        let ghost pre = param_names(params@);
        if toks.len() - p < 3 {
            return Err(ParseError { kind: ParseErrorKind::UnexpectedEnd, pos: toks.len() });
        }
        let name = match ident_text(&toks[p]) {
            Some(s) => s,
            None => {
                return Err(ParseError { kind: ParseErrorKind::UnexpectedToken, pos: p });
            },
        };
        if !(match &toks[p + 1] {
            Token::Colon => true,
            _ => false,
        }) {
            return Err(ParseError { kind: ParseErrorKind::UnexpectedToken, pos: p + 1 });
        }
        let ty = match ident_text(&toks[p + 2]) {
            Some(s) => s,
            None => {
                return Err(ParseError { kind: ParseErrorKind::UnexpectedToken, pos: p + 2 });
            },
        };
        let ghost nv = name@;
        proof {
            assert(param_names(params@.push((name, ty))) =~= pre + seq![nv]);
        }
        params.push((name, ty));
        if p + 3 < toks.len() && (match &toks[p + 3] {
            Token::Comma => true,
            _ => false,
        }) {
            proof {
                match p_params_items(tv, p + 4) {
                    PParams::Params(ns2, p3) => {
                        assert(pre + (seq![nv] + ns2) =~= (pre + seq![nv]) + ns2);
                    },
                    PParams::Fail => {},
                }
            }
            p = p + 4;
        } else if p + 3 < toks.len() && (match &toks[p + 3] {
            Token::RParen => true,
            _ => false,
        }) {
            proof {
                assert(pre + seq![nv] =~= param_names(params@));
            }
            return Ok((params, p + 4));
        } else {
            return Err(
                ParseError {
                    kind: if p + 3 < toks.len() {
                        ParseErrorKind::UnexpectedToken
                    } else {
                        ParseErrorKind::UnexpectedEnd
                    },
                    pos: p + 3,
                },
            );
        }
    }
}

/// Parses statements after an opening brace, through the closing one:
/// exactly what `p_block` says.
#[verifier::rlimit(100)]
#[verifier::spinoff_prover]
fn parse_block_stmts(toks: &Vec<Token>, pos: usize) -> (r: Result<(Vec<Ast>, usize), ParseError>)
    requires
        pos <= toks@.len(),
    ensures
        match r {
            Ok(t) => pos < t.1 <= toks@.len() && p_block(deep_tok_seq(toks@), pos as int)
                == PList::Nodes(deep_ast_seq(t.0@), t.1 as int),
            Err(_e) => p_block(deep_tok_seq(toks@), pos as int) == PList::Fail,
        },
    decreases toks@.len() - pos, 7int,
{
    broadcast use lemma_deep_tok_seq;

    let ghost tv = deep_tok_seq(toks@);
    let mut stmts: Vec<Ast> = Vec::new();
    let mut p = pos;
    proof {
        match p_block(tv, p as int) {
            PList::Nodes(ss, p3) => {
                assert(deep_ast_seq(stmts@) + ss =~= ss);
            },
            PList::Fail => {},
        }
    }
    loop
        invariant
            pos <= p <= toks@.len(),
            tv == deep_tok_seq(toks@),
            match p_block(tv, p as int) {
                PList::Nodes(ss, p3) => p_block(tv, pos as int) == PList::Nodes(
                    deep_ast_seq(stmts@) + ss,
                    p3,
                ),
                PList::Fail => p_block(tv, pos as int) == PList::Fail,
            },
        decreases toks@.len() - p,
    {
        broadcast use lemma_deep_tok_seq;

        let ghost pre = deep_ast_seq(stmts@);
        if p >= toks.len() {
            return Err(ParseError { kind: ParseErrorKind::UnexpectedEnd, pos: p });
        }
        if match &toks[p] {
            Token::RBrace => true,
            _ => false,
        } {
            proof {
                assert(pre + Seq::<AstS>::empty() =~= pre);
            }
            return Ok((stmts, p + 1));
        }
        let (s, p2) = match parse_stmt(toks, p) {
            Ok(t) => t,
            Err(e) => {
                return Err(e);
            },
        };
        let ghost sv = s.deep();
        proof {
            crate::ast::lemma_deep_ast_seq(stmts@.push(s));
            crate::ast::lemma_deep_ast_seq(stmts@);
            assert(deep_ast_seq(stmts@.push(s)) =~= pre + seq![sv]);
            match p_block(tv, p2 as int) {
                PList::Nodes(ss2, p3) => {
                    assert(pre + (seq![sv] + ss2) =~= (pre + seq![sv]) + ss2);
                },
                PList::Fail => {},
            }
        }
        stmts.push(s);
        p = p2;
    }
}

/// Parses one statement, its terminating semicolon included: exactly what
/// `p_stmt` says.
#[verifier::rlimit(100)]
#[verifier::spinoff_prover]
fn parse_stmt(toks: &Vec<Token>, pos: usize) -> (r: Result<(Ast, usize), ParseError>)
    requires
        pos <= toks@.len(),
    ensures
        match r {
            Ok(t) => pos < t.1 <= toks@.len() && p_stmt(deep_tok_seq(toks@), pos as int)
                == PAst::Node(t.0.deep(), t.1 as int),
            Err(_e) => p_stmt(deep_tok_seq(toks@), pos as int) == PAst::Fail,
        },
    decreases toks@.len() - pos, 6int,
{
    broadcast use lemma_deep_tok_seq;

    let ghost tv = deep_tok_seq(toks@);
    if pos >= toks.len() {
        return Err(ParseError { kind: ParseErrorKind::UnexpectedEnd, pos });
    }
    match &toks[pos] {
        Token::KwDef => {
            if toks.len() - pos < 3 {
                return Err(ParseError { kind: ParseErrorKind::UnexpectedEnd, pos: toks.len() });
            }
            let name = match ident_text(&toks[pos + 1]) {
                Some(s) => s,
                None => {
                    return Err(ParseError { kind: ParseErrorKind::UnexpectedToken, pos: pos + 1 });
                },
            };
            if !(match &toks[pos + 2] {
                Token::LParen => true,
                _ => false,
            }) {
                return Err(ParseError { kind: ParseErrorKind::UnexpectedToken, pos: pos + 2 });
            }
            let (params, p) = match parse_params(toks, pos + 3) {
                Ok(t) => t,
                Err(e) => {
                    return Err(e);
                },
            };
            if !(p < toks.len() && (match &toks[p] {
                Token::LBrace => true,
                _ => false,
            })) {
                return Err(
                    ParseError {
                        kind: if p < toks.len() {
                            ParseErrorKind::UnexpectedToken
                        } else {
                            ParseErrorKind::UnexpectedEnd
                        },
                        pos: p,
                    },
                );
            }
            let (body, p2) = match parse_block_stmts(toks, p + 1) {
                Ok(t) => t,
                Err(e) => {
                    return Err(e);
                },
            };
            if p2 < toks.len() && (match &toks[p2] {
                Token::Semi => true,
                _ => false,
            }) {
                Ok((Ast::FunctionDefinition { id: name, params, body }, p2 + 1))
            } else {
                Err(
                    ParseError {
                        kind: if p2 < toks.len() {
                            ParseErrorKind::UnexpectedToken
                        } else {
                            ParseErrorKind::UnexpectedEnd
                        },
                        pos: p2,
                    },
                )
            }
        },
        Token::KwIf => {
            if !(pos + 1 < toks.len() && (match &toks[pos + 1] {
                Token::LParen => true,
                _ => false,
            })) {
                return Err(ParseError { kind: ParseErrorKind::UnexpectedToken, pos: pos + 1 });
            }
            let (cond, p) = match parse_expr(toks, pos + 2) {
                Ok(t) => t,
                Err(e) => {
                    return Err(e);
                },
            };
            if !(toks.len() - p > 1 && (match &toks[p] {
                Token::RParen => true,
                _ => false,
            }) && (match &toks[p + 1] {
                Token::LBrace => true,
                _ => false,
            })) {
                return Err(ParseError { kind: ParseErrorKind::UnexpectedToken, pos: p });
            }
            let (body, p2) = match parse_block_stmts(toks, p + 2) {
                Ok(t) => t,
                Err(e) => {
                    return Err(e);
                },
            };
            if p2 < toks.len() && (match &toks[p2] {
                Token::Semi => true,
                _ => false,
            }) {
                Ok((Ast::If { cond: Box::new(cond), body }, p2 + 1))
            } else {
                Err(
                    ParseError {
                        kind: if p2 < toks.len() {
                            ParseErrorKind::UnexpectedToken
                        } else {
                            ParseErrorKind::UnexpectedEnd
                        },
                        pos: p2,
                    },
                )
            }
        },
        Token::KwFor => {
            if toks.len() - pos < 3 {
                return Err(ParseError { kind: ParseErrorKind::UnexpectedEnd, pos: toks.len() });
            }
            let var = match ident_text(&toks[pos + 1]) {
                Some(s) => s,
                None => {
                    return Err(ParseError { kind: ParseErrorKind::UnexpectedToken, pos: pos + 1 });
                },
            };
            if !(match &toks[pos + 2] {
                Token::KwIn => true,
                _ => false,
            }) {
                return Err(ParseError { kind: ParseErrorKind::UnexpectedToken, pos: pos + 2 });
            }
            let (iter, p) = match parse_expr(toks, pos + 3) {
                Ok(t) => t,
                Err(e) => {
                    return Err(e);
                },
            };
            if !(p < toks.len() && (match &toks[p] {
                Token::LBrace => true,
                _ => false,
            })) {
                return Err(
                    ParseError {
                        kind: if p < toks.len() {
                            ParseErrorKind::UnexpectedToken
                        } else {
                            ParseErrorKind::UnexpectedEnd
                        },
                        pos: p,
                    },
                );
            }
            let (body, p2) = match parse_block_stmts(toks, p + 1) {
                Ok(t) => t,
                Err(e) => {
                    return Err(e);
                },
            };
            if p2 < toks.len() && (match &toks[p2] {
                Token::Semi => true,
                _ => false,
            }) {
                Ok((Ast::For { var, iter: Box::new(iter), body }, p2 + 1))
            } else {
                Err(
                    ParseError {
                        kind: if p2 < toks.len() {
                            ParseErrorKind::UnexpectedToken
                        } else {
                            ParseErrorKind::UnexpectedEnd
                        },
                        pos: p2,
                    },
                )
            }
        },
        Token::Ident(name) => {
            if pos + 1 >= toks.len() {
                return Err(ParseError { kind: ParseErrorKind::UnexpectedEnd, pos: toks.len() });
            }
            match &toks[pos + 1] {
                Token::Assign => {
                    let (e, p) = match parse_expr(toks, pos + 2) {
                        Ok(t) => t,
                        Err(er) => {
                            return Err(er);
                        },
                    };
                    if p < toks.len() && (match &toks[p] {
                        Token::Semi => true,
                        _ => false,
                    }) {
                        Ok((Ast::Assign { id: name.clone(), expr: Box::new(e) }, p + 1))
                    } else {
                        Err(
                            ParseError {
                                kind: if p < toks.len() {
                                    ParseErrorKind::UnexpectedToken
                                } else {
                                    ParseErrorKind::UnexpectedEnd
                                },
                                pos: p,
                            },
                        )
                    }
                },
                Token::LBracket => {
                    let (index, p) = match parse_expr(toks, pos + 2) {
                        Ok(t) => t,
                        Err(er) => {
                            return Err(er);
                        },
                    };
                    if !(toks.len() - p > 1 && (match &toks[p] {
                        Token::RBracket => true,
                        _ => false,
                    }) && (match &toks[p + 1] {
                        Token::Assign => true,
                        _ => false,
                    })) {
                        return Err(ParseError { kind: ParseErrorKind::UnexpectedToken, pos: p });
                    }
                    let (value, p2) = match parse_expr(toks, p + 2) {
                        Ok(t) => t,
                        Err(er) => {
                            return Err(er);
                        },
                    };
                    if p2 < toks.len() && (match &toks[p2] {
                        Token::Semi => true,
                        _ => false,
                    }) {
                        Ok(
                            (
                                Ast::IndexAssign {
                                    id: name.clone(),
                                    index: Box::new(index),
                                    value: Box::new(value),
                                },
                                p2 + 1,
                            ),
                        )
                    } else {
                        Err(
                            ParseError {
                                kind: if p2 < toks.len() {
                                    ParseErrorKind::UnexpectedToken
                                } else {
                                    ParseErrorKind::UnexpectedEnd
                                },
                                pos: p2,
                            },
                        )
                    }
                },
                Token::LParen => {
                    let (args, p) = match parse_args(toks, pos + 2) {
                        Ok(t) => t,
                        Err(er) => {
                            return Err(er);
                        },
                    };
                    if p < toks.len() && (match &toks[p] {
                        Token::Semi => true,
                        _ => false,
                    }) {
                        Ok((Ast::FunctionCall { id: name.clone(), args }, p + 1))
                    } else {
                        Err(
                            ParseError {
                                kind: if p < toks.len() {
                                    ParseErrorKind::UnexpectedToken
                                } else {
                                    ParseErrorKind::UnexpectedEnd
                                },
                                pos: p,
                            },
                        )
                    }
                },
                _ => Err(ParseError { kind: ParseErrorKind::UnexpectedToken, pos: pos + 1 }),
            }
        },
        _ => Err(ParseError { kind: ParseErrorKind::UnexpectedToken, pos }),
    }
}

/// Parses a whole token stream as a statement sequence: exactly what
/// `p_program` says.
#[verifier::rlimit(100)]
#[verifier::spinoff_prover]
pub fn parse_tokens(toks: &Vec<Token>) -> (r: Result<Vec<Ast>, ParseError>)
    ensures
        match r {
            Ok(stmts) => p_program(deep_tok_seq(toks@), 0) == PProg::Prog(deep_ast_seq(stmts@)),
            Err(_e) => p_program(deep_tok_seq(toks@), 0) == PProg::Fail,
        },
{
    broadcast use lemma_deep_tok_seq;

    let ghost tv = deep_tok_seq(toks@);
    let mut stmts: Vec<Ast> = Vec::new();
    let mut p: usize = 0;
    proof {
        match p_program(tv, 0) {
            PProg::Prog(ss) => {
                assert(deep_ast_seq(stmts@) + ss =~= ss);
            },
            PProg::Fail => {},
        }
    }
    while p < toks.len()
        invariant
            p <= toks@.len(),
            tv == deep_tok_seq(toks@),
            match p_program(tv, p as int) {
                PProg::Prog(ss) => p_program(tv, 0) == PProg::Prog(deep_ast_seq(stmts@) + ss),
                PProg::Fail => p_program(tv, 0) == PProg::Fail,
            },
        decreases toks@.len() - p,
    {
        broadcast use lemma_deep_tok_seq;

        let ghost pre = deep_ast_seq(stmts@);
        let (s, p2) = match parse_stmt(toks, p) {
            Ok(t) => t,
            Err(e) => {
                return Err(e);
            },
        };
        let ghost sv = s.deep();
        proof {
            crate::ast::lemma_deep_ast_seq(stmts@.push(s));
            crate::ast::lemma_deep_ast_seq(stmts@);
            assert(deep_ast_seq(stmts@.push(s)) =~= pre + seq![sv]);
            match p_program(tv, p2 as int) {
                PProg::Prog(ss2) => {
                    assert(pre + (seq![sv] + ss2) =~= (pre + seq![sv]) + ss2);
                },
                PProg::Fail => {},
            }
        }
        stmts.push(s);
        p = p2;
    }
    proof {
        assert(deep_ast_seq(stmts@) + Seq::<AstS>::empty() =~= deep_ast_seq(stmts@));
    }
    Ok(stmts)
}

/// Parses source text into its statements: exactly the statement shapes
/// `p_code` gives the text, or a failure exactly where `p_code` fails.
pub fn parse_code(code: &str) -> (r: Result<Vec<Ast>, ParseError>)
    ensures
        match r {
            Ok(stmts) => p_code(code@) == PProg::Prog(deep_ast_seq(stmts@)),
            Err(_e) => p_code(code@) == PProg::Fail,
        },
{
    let chars = str_to_chars(code);
    let toks = match tokenize(&chars) {
        Ok(t) => t,
        Err(e) => {
            return Err(e);
        },
    };
    parse_tokens(&toks)
}

} // verus!
