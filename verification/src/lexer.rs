//! Splits Perl source text into tokens.

use vstd::prelude::*;

use crate::text::{chars_of, push_char};

verus! {

/// Punctuation and operator symbols.
#[derive(Debug, Clone, Copy, PartialEq, Eq, Structural)]
pub enum Sym {
    LParen,
    RParen,
    LBrace,
    RBrace,
    LBracket,
    RBracket,
    Comma,
    Semi,
    Question,
    Colon,
    Plus,
    Minus,
    Star,
    Slash,
    Percent,
    Pow,
    Dot,
    Lt,
    Le,
    Gt,
    Ge,
    EqEq,
    Ne,
    Spaceship,
    AndAnd,
    OrOr,
    Bang,
    Amp,
    Pipe,
    Caret,
    Tilde,
    Shl,
    Shr,
    Assign,
    PlusEq,
    MinusEq,
    StarEq,
    SlashEq,
    PercentEq,
    PowEq,
    DotEq,
    AmpEq,
    PipeEq,
    CaretEq,
    ShlEq,
    ShrEq,
    PlusPlus,
    MinusMinus,
}

/// The kinds of tokens.
#[derive(Debug)]
pub enum Tok {
    Int(i64),
    Str(String),
    /// `$name`
    Scalar(String),
    /// `@name`
    ArrayName(String),
    /// A bare word.
    Ident(String),
    Sym(Sym),
}

/// A token with its line and column (both from 1), and whether it follows
/// the previous token with no space between them.
#[derive(Debug)]
pub struct Token {
    pub tok: Tok,
    pub line: usize,
    pub column: usize,
    pub glued: bool,
}

/// A lexical error at a line and column.
#[derive(Debug)]
pub struct LexError {
    pub line: usize,
    pub column: usize,
    pub message: String,
}

pub open spec fn is_digit_char(c: char) -> bool {
    '0' <= c <= '9'
}

pub open spec fn is_ident_start(c: char) -> bool {
    ('a' <= c <= 'z') || ('A' <= c <= 'Z') || c == '_'
}

pub open spec fn is_ident_char(c: char) -> bool {
    is_ident_start(c) || is_digit_char(c)
}

fn ident_start(c: char) -> (r: bool)
    ensures
        r == is_ident_start(c),
{
    ('a' <= c && c <= 'z') || ('A' <= c && c <= 'Z') || c == '_'
}

fn ident_char(c: char) -> (r: bool)
    ensures
        r == is_ident_char(c),
{
    ident_start(c) || ('0' <= c && c <= '9')
}

/// The value of digit `c` in base `radix`, when it is one.
pub open spec fn digit_value(c: char, radix: u32) -> Option<int> {
    let v: int = if '0' <= c <= '9' {
        c as int - '0' as int
    } else if 'a' <= c <= 'f' {
        c as int - 'a' as int + 10
    } else if 'A' <= c <= 'F' {
        c as int - 'A' as int + 10
    } else {
        radix as int
    };
    if v < radix { Some(v) } else { None }
}

fn digit_of(c: char, radix: u32) -> (r: Option<u32>)
    requires
        radix <= 16,
    ensures
        match r {
            Some(v) => digit_value(c, radix) == Some(v as int),
            None => digit_value(c, radix) is None,
        },
{
    let v: u32 = if '0' <= c && c <= '9' {
        (c as u32) - ('0' as u32)
    } else if 'a' <= c && c <= 'f' {
        (c as u32) - ('a' as u32) + 10
    } else if 'A' <= c && c <= 'F' {
        (c as u32) - ('A' as u32) + 10
    } else {
        radix
    };
    if v < radix {
        Some(v)
    } else {
        None
    }
}

/// The digits of `s` with the `_` separators left out.
pub open spec fn without_underscores(s: Seq<char>) -> Seq<char>
    decreases s.len(),
{
    if s.len() == 0 {
        s
    } else if s.last() == '_' {
        without_underscores(s.drop_last())
    } else {
        without_underscores(s.drop_last()).push(s.last())
    }
}

/// The number that the digits `ds` denote in base `radix`, if each is a digit.
pub open spec fn digits_value(ds: Seq<char>, radix: u32) -> Option<int>
    decreases ds.len(),
{
    if ds.len() == 0 {
        Some(0)
    } else {
        match (digits_value(ds.drop_last(), radix), digit_value(ds.last(), radix)) {
            (Some(h), Some(d)) => Some(h * radix + d),
            _ => None,
        }
    }
}

/// The value of the digits `chars[start..end]` in base `radix`, ignoring `_`;
/// `None` when one is no digit or the value does not fit in an `i64`.
pub fn literal_value(chars: &Vec<char>, start: usize, end: usize, radix: u32) -> (r: Option<i64>)
    requires
        start <= end <= chars@.len(),
        2 <= radix <= 16,
    ensures
        match r {
            Some(v) => digits_value(without_underscores(chars@.subrange(start as int, end as int)), radix) == Some(
                v as int,
            ),
            None => match digits_value(without_underscores(chars@.subrange(start as int, end as int)), radix) {
                Some(v) => v > i64::MAX,
                None => true,
            },
        },
{
    let mut value: i64 = 0;
    let mut i: usize = start;
    while i < end
        invariant
            start <= i <= end,
            end <= chars@.len(),
            2 <= radix <= 16,
            digits_value(without_underscores(chars@.subrange(start as int, i as int)), radix) == Some(value as int),
            value >= 0,
        decreases end - i,
    {
        let c = chars[i];
        let ghost prev = chars@.subrange(start as int, i as int);
        let ghost next = chars@.subrange(start as int, i + 1);
        assert(next.drop_last() =~= prev);
        assert(next.last() == c);
        if c != '_' {
            match digit_of(c, radix) {
                Some(d) => {
                    proof {
                        let w = without_underscores(prev);
                        assert(without_underscores(next) == w.push(c));
                        assert(w.push(c).drop_last() =~= w);
                        assert(digits_value(without_underscores(next), radix) == Some(value * radix + d));
                    }
                    let m = value.checked_mul(radix as i64);
                    match m {
                        Some(mv) => match mv.checked_add(d as i64) {
                            Some(nv) => {
                                value = nv;
                            },
                            None => {
                                proof {
                                    lemma_value_grows(chars@, start as int, (i + 1) as int, end as int, radix);
                                }
                                return None;
                            },
                        },
                        None => {
                            proof {
                                assert(value * radix > i64::MAX);
                                assert(value * radix + d > i64::MAX);
                                lemma_value_grows(chars@, start as int, (i + 1) as int, end as int, radix);
                            }
                            return None;
                        },
                    }
                },
                None => {
                    proof {
                        lemma_bad_digit_stays(chars@, start as int, (i + 1) as int, end as int, radix);
                    }
                    return None;
                },
            }
        }
        i += 1;
    }
    Some(value)
}

proof fn lemma_value_grows(s: Seq<char>, start: int, mid: int, end: int, radix: u32)
    requires
        0 <= start <= mid <= end <= s.len(),
        2 <= radix,
        digits_value(without_underscores(s.subrange(start, mid)), radix) is Some ==> digits_value(
            without_underscores(s.subrange(start, mid)),
            radix,
        )->0 > i64::MAX,
    ensures
        match digits_value(without_underscores(s.subrange(start, end)), radix) {
            Some(v) => v > i64::MAX,
            None => true,
        },
    decreases end - mid,
{
    if mid < end {
        let a = s.subrange(start, mid + 1);
        assert(a.drop_last() =~= s.subrange(start, mid));
        if digits_value(without_underscores(a), radix) is Some {
            let h = digits_value(without_underscores(s.subrange(start, mid)), radix);
            if a.last() == '_' {
            } else {
                assert(without_underscores(a).drop_last() =~= without_underscores(s.subrange(start, mid)));
                assert(h is Some);
                let d = digit_value(a.last(), radix)->0;
                assert(h->0 * radix >= h->0) by (nonlinear_arith)
                    requires h->0 >= 0, radix >= 2;
                assert(d >= 0) by {
                    assert(digit_value(a.last(), radix) is Some);
                }
            }
        }
        lemma_value_grows(s, start, mid + 1, end, radix);
    }
}

proof fn lemma_bad_digit_stays(s: Seq<char>, start: int, mid: int, end: int, radix: u32)
    requires
        0 <= start <= mid <= end <= s.len(),
        digits_value(without_underscores(s.subrange(start, mid)), radix) is None,
    ensures
        digits_value(without_underscores(s.subrange(start, end)), radix) is None,
    decreases end - mid,
{
    if mid < end {
        let a = s.subrange(start, mid + 1);
        assert(a.drop_last() =~= s.subrange(start, mid));
        if a.last() != '_' {
            assert(without_underscores(a).drop_last() =~= without_underscores(s.subrange(start, mid)));
        }
        lemma_bad_digit_stays(s, start, mid + 1, end, radix);
    }
}

} // verus!

verus! {

/// A token kind as a mathematical value: its strings as their characters.
pub enum TokV {
    Int(i64),
    Str(Seq<char>),
    Scalar(Seq<char>),
    ArrayName(Seq<char>),
    Ident(Seq<char>),
    Sym(Sym),
}

pub open spec fn tok_view(t: Tok) -> TokV {
    match t {
        Tok::Int(v) => TokV::Int(v),
        Tok::Str(s) => TokV::Str(s@),
        Tok::Scalar(n) => TokV::Scalar(n@),
        Tok::ArrayName(n) => TokV::ArrayName(n@),
        Tok::Ident(n) => TokV::Ident(n@),
        Tok::Sym(s) => TokV::Sym(s),
    }
}

/// A token as a mathematical value.
pub struct TokenV {
    pub tok: TokV,
    pub line: int,
    pub column: int,
    pub glued: bool,
}

pub open spec fn token_view(t: Token) -> TokenV {
    TokenV { tok: tok_view(t.tok), line: t.line as int, column: t.column as int, glued: t.glued }
}

/// The values of a list of tokens.
pub open spec fn token_views(s: Seq<Token>) -> Seq<TokenV> {
    s.map_values(|t: Token| token_view(t))
}

/// The end of the run of identifier characters that starts at `i`.
pub open spec fn ident_end(chars: Seq<char>, i: int) -> int
    decreases chars.len() - i,
{
    if 0 <= i < chars.len() && is_ident_char(chars[i]) {
        ident_end(chars, i + 1)
    } else {
        i
    }
}

/// The end of the run of decimal digits and `_` that starts at `i`.
pub open spec fn decimal_end(chars: Seq<char>, i: int) -> int
    decreases chars.len() - i,
{
    if 0 <= i < chars.len() && (is_digit_char(chars[i]) || chars[i] == '_') {
        decimal_end(chars, i + 1)
    } else {
        i
    }
}

/// The value of the digits `chars[start..end]` in base `radix`, ignoring
/// `_`, where it is a number that fits in an `i64`.
pub open spec fn literal(chars: Seq<char>, start: int, end: int, radix: u32) -> Option<i64> {
    match digits_value(without_underscores(chars.subrange(start, end)), radix) {
        Some(v) => if v <= i64::MAX { Some(v as i64) } else { None },
        None => None,
    }
}

/// The integer literal at `i`: decimal, or hexadecimal, octal or binary
/// after `0x`, `0o` or `0b`; its value and end.
pub open spec fn number_at(chars: Seq<char>, i: int) -> Result<(i64, int), Seq<char>> {
    if chars[i] == '0' && i + 1 < chars.len() && (chars[i + 1] == 'x' || chars[i + 1] == 'o' || chars[i + 1] == 'b') {
        let radix: u32 = if chars[i + 1] == 'x' { 16 } else if chars[i + 1] == 'o' { 8 } else { 2 };
        let end = ident_end(chars, i + 2);
        if end == i + 2 {
            Err("invalid integer"@)
        } else {
            match literal(chars, i + 2, end, radix) {
                Some(v) => Ok((v, end)),
                None => Err("invalid integer"@),
            }
        }
    } else {
        let end = decimal_end(chars, i);
        if end == i {
            Err("invalid integer"@)
        } else {
            match literal(chars, i, end, 10) {
                Some(v) => Ok((v, end)),
                None => Err("invalid integer"@),
            }
        }
    }
}

/// The rest of a string literal quoted by `quote`, from `i`, after the
/// characters `acc`: its value and the end after the closing quote.
pub open spec fn string_from(chars: Seq<char>, quote: char, start: int, i: int, acc: Seq<char>) -> Result<
    (Seq<char>, int),
    Seq<char>,
>
    decreases chars.len() - i,
{
    if i < 0 || i >= chars.len() {
        Err("invalid string literal: "@ + chars.subrange(start, chars.len() as int))
    } else if chars[i] == quote {
        Ok((acc, i + 1))
    } else if chars[i] == '\\' {
        if i + 1 >= chars.len() {
            Err("unterminated string escape"@)
        } else {
            let e = chars[i + 1];
            if quote == '\'' {
                if e == '\'' || e == '\\' {
                    string_from(chars, quote, start, i + 2, acc.push(e))
                } else {
                    string_from(chars, quote, start, i + 2, acc.push('\\').push(e))
                }
            } else if e == '"' || e == '\\' {
                string_from(chars, quote, start, i + 2, acc.push(e))
            } else if e == 'n' {
                string_from(chars, quote, start, i + 2, acc.push('\n'))
            } else if e == 't' {
                string_from(chars, quote, start, i + 2, acc.push('\t'))
            } else {
                Err("unsupported escape sequence: \\"@ + seq![e])
            }
        }
    } else {
        string_from(chars, quote, start, i + 1, acc.push(chars[i]))
    }
}

/// The symbol at `i`, the longest that matches, and its length.
pub open spec fn symbol_at(chars: Seq<char>, i: int) -> Option<(Sym, int)> {
    let n = chars.len();
    let c = chars[i];
    let c1 = if n - i > 1 { chars[i + 1] } else { ' ' };
    let c2 = if n - i > 2 { chars[i + 2] } else { ' ' };
    if n - i > 2 && c == '*' && c1 == '*' && c2 == '=' {
        Some((Sym::PowEq, 3))
    } else if n - i > 2 && c == '<' && c1 == '=' && c2 == '>' {
        Some((Sym::Spaceship, 3))
    } else if n - i > 2 && c == '<' && c1 == '<' && c2 == '=' {
        Some((Sym::ShlEq, 3))
    } else if n - i > 2 && c == '>' && c1 == '>' && c2 == '=' {
        Some((Sym::ShrEq, 3))
    } else if n - i > 1 && two_symbol(c, c1) is Some {
        Some((two_symbol(c, c1)->0, 2))
    } else {
        match one_symbol(c) {
            Some(s) => Some((s, 1)),
            None => None,
        }
    }
}

/// How each symbol is written.
pub open spec fn symbol_spelling(s: Sym) -> Seq<char> {
    match s {
        Sym::LParen => seq!['('],
        Sym::RParen => seq![')'],
        Sym::LBrace => seq!['{'],
        Sym::RBrace => seq!['}'],
        Sym::LBracket => seq!['['],
        Sym::RBracket => seq![']'],
        Sym::Comma => seq![','],
        Sym::Semi => seq![';'],
        Sym::Question => seq!['?'],
        Sym::Colon => seq![':'],
        Sym::Plus => seq!['+'],
        Sym::Minus => seq!['-'],
        Sym::Star => seq!['*'],
        Sym::Slash => seq!['/'],
        Sym::Percent => seq!['%'],
        Sym::Pow => seq!['*', '*'],
        Sym::Dot => seq!['.'],
        Sym::Lt => seq!['<'],
        Sym::Le => seq!['<', '='],
        Sym::Gt => seq!['>'],
        Sym::Ge => seq!['>', '='],
        Sym::EqEq => seq!['=', '='],
        Sym::Ne => seq!['!', '='],
        Sym::Spaceship => seq!['<', '=', '>'],
        Sym::AndAnd => seq!['&', '&'],
        Sym::OrOr => seq!['|', '|'],
        Sym::Bang => seq!['!'],
        Sym::Amp => seq!['&'],
        Sym::Pipe => seq!['|'],
        Sym::Caret => seq!['^'],
        Sym::Tilde => seq!['~'],
        Sym::Shl => seq!['<', '<'],
        Sym::Shr => seq!['>', '>'],
        Sym::Assign => seq!['='],
        Sym::PlusEq => seq!['+', '='],
        Sym::MinusEq => seq!['-', '='],
        Sym::StarEq => seq!['*', '='],
        Sym::SlashEq => seq!['/', '='],
        Sym::PercentEq => seq!['%', '='],
        Sym::PowEq => seq!['*', '*', '='],
        Sym::DotEq => seq!['.', '='],
        Sym::AmpEq => seq!['&', '='],
        Sym::PipeEq => seq!['|', '='],
        Sym::CaretEq => seq!['^', '='],
        Sym::ShlEq => seq!['<', '<', '='],
        Sym::ShrEq => seq!['>', '>', '='],
        Sym::PlusPlus => seq!['+', '+'],
        Sym::MinusMinus => seq!['-', '-'],
    }
}

/// Law: the symbol read at `i` is the one whose spelling the text has there.
pub proof fn law_symbol_is_what_is_written(chars: Seq<char>, i: int)
    requires
        0 <= i < chars.len(),
    ensures
        symbol_at(chars, i) matches Some((s, k)) ==> i + k <= chars.len() && chars.subrange(i, i + k)
            == symbol_spelling(s),
{
    if let Some((s, k)) = symbol_at(chars, i) {
        assert(chars.subrange(i, i + k) =~= symbol_spelling(s));
    }
}

/// The two-character symbol `c c1`.
pub open spec fn two_symbol(c: char, c1: char) -> Option<Sym> {
    if c == '*' && c1 == '*' {
        Some(Sym::Pow)
    } else if c == '+' && c1 == '+' {
        Some(Sym::PlusPlus)
    } else if c == '-' && c1 == '-' {
        Some(Sym::MinusMinus)
    } else if c == '+' && c1 == '=' {
        Some(Sym::PlusEq)
    } else if c == '-' && c1 == '=' {
        Some(Sym::MinusEq)
    } else if c == '*' && c1 == '=' {
        Some(Sym::StarEq)
    } else if c == '/' && c1 == '=' {
        Some(Sym::SlashEq)
    } else if c == '%' && c1 == '=' {
        Some(Sym::PercentEq)
    } else if c == '.' && c1 == '=' {
        Some(Sym::DotEq)
    } else if c == '&' && c1 == '=' {
        Some(Sym::AmpEq)
    } else if c == '|' && c1 == '=' {
        Some(Sym::PipeEq)
    } else if c == '^' && c1 == '=' {
        Some(Sym::CaretEq)
    } else if c == '<' && c1 == '<' {
        Some(Sym::Shl)
    } else if c == '>' && c1 == '>' {
        Some(Sym::Shr)
    } else if c == '<' && c1 == '=' {
        Some(Sym::Le)
    } else if c == '>' && c1 == '=' {
        Some(Sym::Ge)
    } else if c == '=' && c1 == '=' {
        Some(Sym::EqEq)
    } else if c == '!' && c1 == '=' {
        Some(Sym::Ne)
    } else if c == '&' && c1 == '&' {
        Some(Sym::AndAnd)
    } else if c == '|' && c1 == '|' {
        Some(Sym::OrOr)
    } else {
        None
    }
}

/// The one-character symbol `c`.
pub open spec fn one_symbol(c: char) -> Option<Sym> {
    if c == '(' {
        Some(Sym::LParen)
    } else if c == ')' {
        Some(Sym::RParen)
    } else if c == '{' {
        Some(Sym::LBrace)
    } else if c == '}' {
        Some(Sym::RBrace)
    } else if c == '[' {
        Some(Sym::LBracket)
    } else if c == ']' {
        Some(Sym::RBracket)
    } else if c == ',' {
        Some(Sym::Comma)
    } else if c == ';' {
        Some(Sym::Semi)
    } else if c == '?' {
        Some(Sym::Question)
    } else if c == ':' {
        Some(Sym::Colon)
    } else if c == '+' {
        Some(Sym::Plus)
    } else if c == '-' {
        Some(Sym::Minus)
    } else if c == '*' {
        Some(Sym::Star)
    } else if c == '/' {
        Some(Sym::Slash)
    } else if c == '%' {
        Some(Sym::Percent)
    } else if c == '.' {
        Some(Sym::Dot)
    } else if c == '<' {
        Some(Sym::Lt)
    } else if c == '>' {
        Some(Sym::Gt)
    } else if c == '=' {
        Some(Sym::Assign)
    } else if c == '!' {
        Some(Sym::Bang)
    } else if c == '&' {
        Some(Sym::Amp)
    } else if c == '|' {
        Some(Sym::Pipe)
    } else if c == '^' {
        Some(Sym::Caret)
    } else if c == '~' {
        Some(Sym::Tilde)
    } else {
        None
    }
}

/// The token that starts at `i` and the position after it.
pub open spec fn tok_at(chars: Seq<char>, i: int) -> Result<(TokV, int), Seq<char>> {
    let c = chars[i];
    if c == '$' || c == '@' {
        if i + 1 < chars.len() && is_ident_start(chars[i + 1]) {
            let end = ident_end(chars, i + 1);
            let name = chars.subrange(i + 1, end);
            Ok((if c == '$' { TokV::Scalar(name) } else { TokV::ArrayName(name) }, end))
        } else {
            Err("expected a variable name"@)
        }
    } else if is_ident_start(c) {
        let end = ident_end(chars, i);
        Ok((TokV::Ident(chars.subrange(i, end)), end))
    } else if is_digit_char(c) {
        match number_at(chars, i) {
            Ok((v, end)) => Ok((TokV::Int(v), end)),
            Err(m) => Err(m),
        }
    } else if c == '"' || c == '\'' {
        match string_from(chars, c, i, i + 1, Seq::empty()) {
            Ok((s, end)) => Ok((TokV::Str(s), end)),
            Err(m) => Err(m),
        }
    } else {
        match symbol_at(chars, i) {
            Some((s, k)) => Ok((TokV::Sym(s), i + k)),
            None => Err("unexpected character"@),
        }
    }
}

/// `x + 1`, unless `x` is at the largest `usize`.
pub open spec fn bumped(x: int) -> int {
    if x < usize::MAX {
        x + 1
    } else {
        x
    }
}

/// `x` bumped `k` times.
pub open spec fn bumped_n(x: int, k: int) -> int
    decreases k,
{
    if k <= 0 {
        x
    } else {
        bumped(bumped_n(x, k - 1))
    }
}

/// The line and column after the characters `chars[i..end]`, from `line`
/// and `col`.
pub open spec fn advance(chars: Seq<char>, i: int, end: int, line: int, col: int) -> (int, int)
    decreases end - i,
{
    if i >= end || i < 0 || i >= chars.len() {
        (line, col)
    } else if chars[i] == '\n' {
        advance(chars, i + 1, end, bumped(line), 1)
    } else {
        advance(chars, i + 1, end, line, bumped(col))
    }
}

/// The first line break at or after `i`, or the end.
pub open spec fn comment_end(chars: Seq<char>, i: int) -> int
    decreases chars.len() - i,
{
    if 0 <= i < chars.len() && chars[i] != '\n' {
        comment_end(chars, i + 1)
    } else {
        i
    }
}

/// The tokens from `i` on, with the position `line`/`col` of `i` and
/// whether `i` follows a token with no space; or the position and text of
/// a lexical error.
pub open spec fn lex_from(chars: Seq<char>, i: int, line: int, col: int, glued: bool) -> Result<
    Seq<TokenV>,
    (int, int, Seq<char>),
>
    decreases chars.len() - i,
{
    if i < 0 || i >= chars.len() {
        Ok(Seq::empty())
    } else {
        let c = chars[i];
        if c == '\n' {
            lex_from(chars, i + 1, bumped(line), 1, false)
        } else if c == ' ' || c == '\t' || c == '\r' {
            lex_from(chars, i + 1, line, bumped(col), false)
        } else if c == '#' {
            let e = comment_end(chars, i + 1);
            if e <= i || e > chars.len() {
                Ok(Seq::empty())
            } else {
                lex_from(chars, e, line, bumped_n(col, e - (i + 1)), false)
            }
        } else {
            match tok_at(chars, i) {
                Err(m) => Err((line, col, m)),
                Ok((t, end)) => if end <= i || end > chars.len() {
                    Ok(Seq::empty())
                } else {
                    let (l2, c2) = advance(chars, i, end, line, col);
                    match lex_from(chars, end, l2, c2, true) {
                        Ok(rest) => Ok(seq![TokenV { tok: t, line, column: col, glued }] + rest),
                        Err(e) => Err(e),
                    }
                },
            }
        }
    }
}

/// The tokens of `text`.
pub open spec fn lexed(text: Seq<char>) -> Result<Seq<TokenV>, (int, int, Seq<char>)> {
    lex_from(text, 0, 1, 1, false)
}

} // verus!

verus! {

/// The characters `chars[start..end]` as a string.
pub fn string_between(chars: &Vec<char>, start: usize, end: usize) -> (r: String)
    requires
        start <= end <= chars@.len(),
    ensures
        r@ == chars@.subrange(start as int, end as int),
{
    let mut s = String::new();
    let mut i = start;
    while i < end
        invariant
            start <= i <= end <= chars@.len(),
            s@ == chars@.subrange(start as int, i as int),
        decreases end - i,
    {
        push_char(&mut s, chars[i]);
        assert(chars@.subrange(start as int, i as int).push(chars@[i as int]) =~= chars@.subrange(start as int, i + 1));
        i += 1;
    }
    s
}

/// The end of the run of identifier characters that starts at `start`.
fn scan_ident(chars: &Vec<char>, start: usize) -> (r: usize)
    requires
        start <= chars@.len(),
    ensures
        start <= r <= chars@.len(),
        forall|k: int| start <= k < r ==> is_ident_char(#[trigger] chars@[k]),
        r < chars@.len() ==> !is_ident_char(chars@[r as int]),
        r == ident_end(chars@, start as int),
{
    let mut i = start;
    while i < chars.len() && ident_char(chars[i])
        invariant
            start <= i <= chars@.len(),
            forall|k: int| start <= k < i ==> is_ident_char(#[trigger] chars@[k]),
            ident_end(chars@, start as int) == ident_end(chars@, i as int),
        decreases chars.len() - i,
    {
        i += 1;
    }
    i
}

/// Reads a quoted string literal that starts at `start`; returns its value
/// and the index just past the closing quote.
fn lex_string(chars: &Vec<char>, start: usize) -> (r: Result<(String, usize), String>)
    requires
        start < chars@.len(),
        chars@[start as int] == '"' || chars@[start as int] == '\'',
    ensures
        r matches Ok((_, end)) ==> start < end <= chars@.len(),
        match (r, string_from(chars@, chars@[start as int], start as int, start + 1, Seq::empty())) {
            (Ok((v, end)), Ok((w, e2))) => v@ == w && end == e2,
            (Err(m), Err(m2)) => m@ == m2,
            _ => false,
        },
{
    let n = chars.len();
    let quote = chars[start];
    let single = quote == '\'';
    let mut value = String::new();
    let mut i = start + 1;
    assert(value@ =~= Seq::<char>::empty());
    while i < n
        invariant
            start < i <= n,
            n == chars@.len(),
            quote == chars@[start as int],
            single == (quote == '\''),
            string_from(chars@, quote, start as int, start + 1, Seq::empty()) == string_from(chars@, quote, start as int, i as int, value@),
        decreases chars.len() - i,
    {
        let c = chars[i];
        if c == quote {
            return Ok((value, i + 1));
        }
        if c == '\\' {
            if i + 1 >= n {
                return Err(str_msg("unterminated string escape"));
            }
            let e = chars[i + 1];
            if single {
                if e == '\'' || e == '\\' {
                    push_char(&mut value, e);
                } else {
                    push_char(&mut value, '\\');
                    push_char(&mut value, e);
                }
            } else {
                if e == '"' || e == '\\' {
                    push_char(&mut value, e);
                } else if e == 'n' {
                    push_char(&mut value, '\n');
                } else if e == 't' {
                    push_char(&mut value, '\t');
                } else {
                    let mut m = str_msg("unsupported escape sequence: \\");
                    push_char(&mut m, e);
                    return Err(m);
                }
            }
            i += 2;
        } else {
            push_char(&mut value, c);
            i += 1;
        }
    }
    let mut m = str_msg("invalid string literal: ");
    crate::text::push_string(&mut m, &crate::text::slice_string(chars, start, n));
    Err(m)
}

fn str_msg(s: &str) -> (r: String)
    ensures
        r@ == s@,
{
    crate::text::str_to_string(s)
}

/// The symbol at `i`, longest match first, and its length.
fn lex_symbol(chars: &Vec<char>, i: usize) -> (r: Option<(Sym, usize)>)
    requires
        i < chars@.len(),
    ensures
        r matches Some((_, k)) ==> 1 <= k <= 3 && i + k <= chars@.len(),
        match r {
            Some((s, k)) => symbol_at(chars@, i as int) == Some((s, k as int)),
            None => symbol_at(chars@, i as int) is None,
        },
{
    let n = chars.len();
    let c = chars[i];
    let c1 = if n - i > 1 { chars[i + 1] } else { ' ' };
    let c2 = if n - i > 2 { chars[i + 2] } else { ' ' };
    if n - i > 2 {
        if c == '*' && c1 == '*' && c2 == '=' {
            return Some((Sym::PowEq, 3));
        }
        if c == '<' && c1 == '=' && c2 == '>' {
            return Some((Sym::Spaceship, 3));
        }
        if c == '<' && c1 == '<' && c2 == '=' {
            return Some((Sym::ShlEq, 3));
        }
        if c == '>' && c1 == '>' && c2 == '=' {
            return Some((Sym::ShrEq, 3));
        }
    }
    if n - i > 1 {
        let two = if c == '*' && c1 == '*' {
            Some(Sym::Pow)
        } else if c == '+' && c1 == '+' {
            Some(Sym::PlusPlus)
        } else if c == '-' && c1 == '-' {
            Some(Sym::MinusMinus)
        } else if c == '+' && c1 == '=' {
            Some(Sym::PlusEq)
        } else if c == '-' && c1 == '=' {
            Some(Sym::MinusEq)
        } else if c == '*' && c1 == '=' {
            Some(Sym::StarEq)
        } else if c == '/' && c1 == '=' {
            Some(Sym::SlashEq)
        } else if c == '%' && c1 == '=' {
            Some(Sym::PercentEq)
        } else if c == '.' && c1 == '=' {
            Some(Sym::DotEq)
        } else if c == '&' && c1 == '=' {
            Some(Sym::AmpEq)
        } else if c == '|' && c1 == '=' {
            Some(Sym::PipeEq)
        } else if c == '^' && c1 == '=' {
            Some(Sym::CaretEq)
        } else if c == '<' && c1 == '<' {
            Some(Sym::Shl)
        } else if c == '>' && c1 == '>' {
            Some(Sym::Shr)
        } else if c == '<' && c1 == '=' {
            Some(Sym::Le)
        } else if c == '>' && c1 == '=' {
            Some(Sym::Ge)
        } else if c == '=' && c1 == '=' {
            Some(Sym::EqEq)
        } else if c == '!' && c1 == '=' {
            Some(Sym::Ne)
        } else if c == '&' && c1 == '&' {
            Some(Sym::AndAnd)
        } else if c == '|' && c1 == '|' {
            Some(Sym::OrOr)
        } else {
            None
        };
        if let Some(s) = two {
            return Some((s, 2));
        }
    }
    let one = match c {
        '(' => Sym::LParen,
        ')' => Sym::RParen,
        '{' => Sym::LBrace,
        '}' => Sym::RBrace,
        '[' => Sym::LBracket,
        ']' => Sym::RBracket,
        ',' => Sym::Comma,
        ';' => Sym::Semi,
        '?' => Sym::Question,
        ':' => Sym::Colon,
        '+' => Sym::Plus,
        '-' => Sym::Minus,
        '*' => Sym::Star,
        '/' => Sym::Slash,
        '%' => Sym::Percent,
        '.' => Sym::Dot,
        '<' => Sym::Lt,
        '>' => Sym::Gt,
        '=' => Sym::Assign,
        '!' => Sym::Bang,
        '&' => Sym::Amp,
        '|' => Sym::Pipe,
        '^' => Sym::Caret,
        '~' => Sym::Tilde,
        _ => {
            return None;
        },
    };
    Some((one, 1))
}

/// Reads an integer literal at `i`: decimal, or hexadecimal, octal or binary
/// after `0x`, `0o` or `0b`, with `_` allowed between digits.
fn lex_number(chars: &Vec<char>, i: usize) -> (r: Result<(i64, usize), String>)
    requires
        i < chars@.len(),
        is_digit_char(chars@[i as int]),
    ensures
        r matches Ok((_, end)) ==> i < end <= chars@.len(),
        match (r, number_at(chars@, i as int)) {
            (Ok((v, end)), Ok((w, e2))) => v == w && end == e2,
            (Err(m), Err(m2)) => m@ == m2,
            _ => false,
        },
{
    let n = chars.len();
    if chars[i] == '0' && i + 1 < n && (chars[i + 1] == 'x' || chars[i + 1] == 'o' || chars[i + 1] == 'b') {
        let radix: u32 = if chars[i + 1] == 'x' { 16 } else if chars[i + 1] == 'o' { 8 } else { 2 };
        let end = scan_ident(chars, i + 2);
        if end == i + 2 {
            return Err(str_msg("invalid integer"));
        }
        match literal_value(chars, i + 2, end, radix) {
            Some(v) => Ok((v, end)),
            None => Err(str_msg("invalid integer")),
        }
    } else {
        let mut end = i;
        while end < n && (('0' <= chars[end] && chars[end] <= '9') || chars[end] == '_')
            invariant
                i <= end <= n,
                n == chars@.len(),
                decimal_end(chars@, i as int) == decimal_end(chars@, end as int),
            decreases n - end,
        {
            end += 1;
        }
        if end == i {
            return Err(str_msg("invalid integer"));
        }
        match literal_value(chars, i, end, 10) {
            Some(v) => Ok((v, end)),
            None => Err(str_msg("invalid integer")),
        }
    }
}

/// The token that starts at `i`, and the index just past it.
fn lex_one(chars: &Vec<char>, i: usize) -> (r: Result<(Tok, usize), String>)
    requires
        i < chars@.len(),
    ensures
        r matches Ok((_, end)) ==> i < end <= chars@.len(),
        match (r, tok_at(chars@, i as int)) {
            (Ok((t, end)), Ok((v, e2))) => tok_view(t) == v && end == e2,
            (Err(m), Err(m2)) => m@ == m2,
            _ => false,
        },
{
    let c = chars[i];
    let n = chars.len();
    if c == '$' || c == '@' {
        if i + 1 < n && ident_start(chars[i + 1]) {
            let end = scan_ident(chars, i + 1);
            let name = string_between(chars, i + 1, end);
            if c == '$' {
                return Ok((Tok::Scalar(name), end));
            } else {
                return Ok((Tok::ArrayName(name), end));
            }
        }
        return Err(str_msg("expected a variable name"));
    }
    if ident_start(c) {
        let end = scan_ident(chars, i);
        return Ok((Tok::Ident(string_between(chars, i, end)), end));
    }
    if '0' <= c && c <= '9' {
        let (v, end) = lex_number(chars, i)?;
        return Ok((Tok::Int(v), end));
    }
    if c == '"' || c == '\'' {
        let (s, end) = lex_string(chars, i)?;
        return Ok((Tok::Str(s), end));
    }
    match lex_symbol(chars, i) {
        Some((s, k)) => Ok((Tok::Sym(s), i + k)),
        None => Err(str_msg("unexpected character")),
    }
}

fn bump(x: usize) -> (r: usize)
    ensures
        x < usize::MAX ==> r == x + 1,
        r == bumped(x as int),
{
    if x < usize::MAX {
        x + 1
    } else {
        x
    }
}

/// The tokens `done` followed by the outcome `rest`.
pub open spec fn after_tokens(done: Seq<TokenV>, rest: Result<Seq<TokenV>, (int, int, Seq<char>)>) -> Result<
    Seq<TokenV>,
    (int, int, Seq<char>),
> {
    match rest {
        Ok(r) => Ok(done + r),
        Err(e) => Err(e),
    }
}

/// The tokens of `text`, skipping spaces and `#` comments.
pub fn tokenize(text: &str) -> (r: Result<Vec<Token>, LexError>)
    ensures
        r matches Ok(tokens) ==> tokens@.len() <= text@.len(),
        match (r, lexed(text@)) {
            (Ok(tokens), Ok(vs)) => token_views(tokens@) == vs,
            (Err(e), Err((line, column, message))) => e.line == line && e.column == column && e.message@ == message,
            _ => false,
        },
{
    let chars = chars_of(text);
    let n = chars.len();
    let mut out: Vec<Token> = Vec::new();
    let mut i: usize = 0;
    let mut line: usize = 1;
    let mut col: usize = 1;
    let mut glued = false;
    proof {
        assert(token_views(out@) =~= Seq::<TokenV>::empty());
        assert(lexed(text@) == lex_from(chars@, 0, 1, 1, false));
        match lex_from(chars@, 0, 1, 1, false) {
            Ok(rest) => assert(Seq::<TokenV>::empty() + rest =~= rest),
            Err(_) => {},
        }
    }
    while i < n
        invariant
            i <= n,
            n == chars@.len(),
            chars@ == text@,
            out@.len() <= i,
            lexed(text@) == after_tokens(token_views(out@), lex_from(chars@, i as int, line as int, col as int, glued)),
        decreases n - i,
    {
        let c = chars[i];
        if c == '\n' {
            i += 1;
            line = bump(line);
            col = 1;
            glued = false;
        } else if c == ' ' || c == '\t' || c == '\r' {
            i += 1;
            col = bump(col);
            glued = false;
        } else if c == '#' {
            let ghost col0 = col as int;
            i += 1;
            let after_hash = i;
            while i < n && chars[i] != '\n'
                invariant
                    after_hash <= i <= n,
                    n == chars@.len(),
                    out@.len() <= i,
                    comment_end(chars@, after_hash as int) == comment_end(chars@, i as int),
                    col == bumped_n(col0, i - after_hash),
                decreases n - i,
            {
                i += 1;
                col = bump(col);
            }
            glued = false;
        } else {
            match lex_one(&chars, i) {
                Ok((tok, end)) => {
                    let ghost before = token_views(out@);
                    let ghost (line0, col0, glued0) = (line as int, col as int, glued);
                    out.push(Token { tok, line, column: col, glued });
                    assert(token_views(out@) =~= before.push(token_view(out@.last())));
                    let tok_start = i;
                    while i < end
                        invariant
                            tok_start <= i <= end <= n,
                            tok_start < end,
                            n == chars@.len(),
                            out@.len() <= tok_start + 1,
                            advance(chars@, tok_start as int, end as int, line0, col0) == advance(
                                chars@,
                                i as int,
                                end as int,
                                line as int,
                                col as int,
                            ),
                        decreases end - i,
                    {
                        if chars[i] == '\n' {
                            line = bump(line);
                            col = 1;
                        } else {
                            col = bump(col);
                        }
                        i += 1;
                    }
                    glued = true;
                    proof {
                        let tv = token_view(out@.last());
                        assert(advance(chars@, i as int, end as int, line as int, col as int) == (line as int, col as int));
                        match lex_from(chars@, end as int, line as int, col as int, true) {
                            Ok(rest) => {
                                assert(before.push(tv) + rest =~= before + (seq![tv] + rest));
                            },
                            Err(_) => {},
                        }
                    }
                },
                Err(message) => {
                    return Err(LexError { line, column: col, message });
                },
            }
        }
    }
    Ok(out)
}

} // verus!
