//! The lexical analysis module: turns a source buffer into a stream of
//! tokens, produced one at a time by [`Lexer::next`]. The cursor advances
//! monotonically and is never rewound.

use vstd::prelude::*;
use vstd::string::StrSliceExecFns;

use crate::text::{
    all_digits, digit_char, digits_val, ident_char, ident_start_char, is_digit_char, is_ident_char,
    is_ident_start_char, is_ws_char, parse_digits_i64, push_char, str_eq, ws_char,
};

verus! {

/// A classified lexical unit: keyword, operator or punctuation symbol,
/// literal, identifier, or the end-of-stream sentinel.
#[derive(Debug, PartialEq)]
pub enum Token {
    // keywords
    And,
    Break,
    Do,
    Else,
    Elseif,
    End,
    False,
    For,
    Function,
    Goto,
    If,
    In,
    Local,
    Nil,
    Not,
    Or,
    Repeat,
    Return,
    Then,
    True,
    Until,
    While,
    // +       -       *       /       %       ^       #
    Add,
    Sub,
    Mul,
    Div,
    Mod,
    Pow,
    Len,
    // &       ~       |       <<      >>      //
    BitAnd,
    BitXor,
    BitOr,
    ShiftLeft,
    ShiftRight,
    Idiv,
    // ==      ~=      <=      >=      <       >       =
    Eq,
    NotEq,
    LessEq,
    GreaterEq,
    Less,
    Greater,
    Assign,
    // (       )       {       }       [       ]       ::
    ParLeft,
    ParRight,
    CurlyLeft,
    CurlyRight,
    SqurLeft,
    SqurRight,
    DoubColon,
    SemiColon,
    Colon,
    Comma,
    Dot,
    Concat,
    Dots,
    // constant values; a float literal keeps its source text
    ConstInteger(i64),
    ConstFloat(String),
    ConstString(String),
    // name of a variable or table key
    Name(String),
    Eos,
}

/// The mathematical image of a [`Token`]: text as character sequences and
/// integers unbounded.
pub enum TokenView {
    And,
    Break,
    Do,
    Else,
    Elseif,
    End,
    False,
    For,
    Function,
    Goto,
    If,
    In,
    Local,
    Nil,
    Not,
    Or,
    Repeat,
    Return,
    Then,
    True,
    Until,
    While,
    Add,
    Sub,
    Mul,
    Div,
    Mod,
    Pow,
    Len,
    BitAnd,
    BitXor,
    BitOr,
    ShiftLeft,
    ShiftRight,
    Idiv,
    Eq,
    NotEq,
    LessEq,
    GreaterEq,
    Less,
    Greater,
    Assign,
    ParLeft,
    ParRight,
    CurlyLeft,
    CurlyRight,
    SqurLeft,
    SqurRight,
    DoubColon,
    SemiColon,
    Colon,
    Comma,
    Dot,
    Concat,
    Dots,
    ConstInteger(int),
    ConstFloat(Seq<char>),
    ConstString(Seq<char>),
    Name(Seq<char>),
    Eos,
}

impl View for Token {
    type V = TokenView;

    open spec fn view(&self) -> TokenView {
        match self {
            Token::And => TokenView::And,
            Token::Break => TokenView::Break,
            Token::Do => TokenView::Do,
            Token::Else => TokenView::Else,
            Token::Elseif => TokenView::Elseif,
            Token::End => TokenView::End,
            Token::False => TokenView::False,
            Token::For => TokenView::For,
            Token::Function => TokenView::Function,
            Token::Goto => TokenView::Goto,
            Token::If => TokenView::If,
            Token::In => TokenView::In,
            Token::Local => TokenView::Local,
            Token::Nil => TokenView::Nil,
            Token::Not => TokenView::Not,
            Token::Or => TokenView::Or,
            Token::Repeat => TokenView::Repeat,
            Token::Return => TokenView::Return,
            Token::Then => TokenView::Then,
            Token::True => TokenView::True,
            Token::Until => TokenView::Until,
            Token::While => TokenView::While,
            Token::Add => TokenView::Add,
            Token::Sub => TokenView::Sub,
            Token::Mul => TokenView::Mul,
            Token::Div => TokenView::Div,
            Token::Mod => TokenView::Mod,
            Token::Pow => TokenView::Pow,
            Token::Len => TokenView::Len,
            Token::BitAnd => TokenView::BitAnd,
            Token::BitXor => TokenView::BitXor,
            Token::BitOr => TokenView::BitOr,
            Token::ShiftLeft => TokenView::ShiftLeft,
            Token::ShiftRight => TokenView::ShiftRight,
            Token::Idiv => TokenView::Idiv,
            Token::Eq => TokenView::Eq,
            Token::NotEq => TokenView::NotEq,
            Token::LessEq => TokenView::LessEq,
            Token::GreaterEq => TokenView::GreaterEq,
            Token::Less => TokenView::Less,
            Token::Greater => TokenView::Greater,
            Token::Assign => TokenView::Assign,
            Token::ParLeft => TokenView::ParLeft,
            Token::ParRight => TokenView::ParRight,
            Token::CurlyLeft => TokenView::CurlyLeft,
            Token::CurlyRight => TokenView::CurlyRight,
            Token::SqurLeft => TokenView::SqurLeft,
            Token::SqurRight => TokenView::SqurRight,
            Token::DoubColon => TokenView::DoubColon,
            Token::SemiColon => TokenView::SemiColon,
            Token::Colon => TokenView::Colon,
            Token::Comma => TokenView::Comma,
            Token::Dot => TokenView::Dot,
            Token::Concat => TokenView::Concat,
            Token::Dots => TokenView::Dots,
            Token::ConstInteger(i) => TokenView::ConstInteger(*i as int),
            Token::ConstFloat(t) => TokenView::ConstFloat(t@),
            Token::ConstString(s) => TokenView::ConstString(s@),
            Token::Name(n) => TokenView::Name(n@),
            Token::Eos => TokenView::Eos,
        }
    }
}

// ---------------------------------------------------------------------------
// Scanning at the specification level
// ---------------------------------------------------------------------------

/// The first position at or after `p` holding a non-whitespace character.
pub open spec fn sp_skip_ws(src: Seq<char>, p: int) -> int
    decreases src.len() - p,
    when 0 <= p <= src.len()
{
    if p < src.len() && is_ws_char(src[p]) {
        sp_skip_ws(src, p + 1)
    } else {
        p
    }
}

/// The end of the identifier run starting at `p`.
pub open spec fn sp_ident_end(src: Seq<char>, p: int) -> int
    decreases src.len() - p,
    when 0 <= p <= src.len()
{
    if p < src.len() && is_ident_char(src[p]) {
        sp_ident_end(src, p + 1)
    } else {
        p
    }
}

/// The end of the digit run starting at `p`.
pub open spec fn sp_digits_end(src: Seq<char>, p: int) -> int
    decreases src.len() - p,
    when 0 <= p <= src.len()
{
    if p < src.len() && is_digit_char(src[p]) {
        sp_digits_end(src, p + 1)
    } else {
        p
    }
}

/// The first position at or after `p` holding `stop`, or the buffer length.
pub open spec fn sp_find_end(src: Seq<char>, p: int, stop: char) -> int
    decreases src.len() - p,
    when 0 <= p <= src.len()
{
    if p < src.len() && src[p] != stop {
        sp_find_end(src, p + 1, stop)
    } else {
        p
    }
}

pub proof fn lemma_skip_ws_props(src: Seq<char>, p: int)
    requires
        0 <= p <= src.len(),
    ensures
        p <= sp_skip_ws(src, p) <= src.len(),
        forall|i: int| p <= i < sp_skip_ws(src, p) ==> is_ws_char(#[trigger] src[i]),
        sp_skip_ws(src, p) < src.len() ==> !is_ws_char(src[sp_skip_ws(src, p)]),
    decreases src.len() - p,
{
    if p < src.len() && is_ws_char(src[p]) {
        lemma_skip_ws_props(src, p + 1);
    }
}

pub proof fn lemma_ident_end_props(src: Seq<char>, p: int)
    requires
        0 <= p <= src.len(),
    ensures
        p <= sp_ident_end(src, p) <= src.len(),
        forall|i: int| p <= i < sp_ident_end(src, p) ==> is_ident_char(#[trigger] src[i]),
        sp_ident_end(src, p) < src.len() ==> !is_ident_char(src[sp_ident_end(src, p)]),
    decreases src.len() - p,
{
    if p < src.len() && is_ident_char(src[p]) {
        lemma_ident_end_props(src, p + 1);
    }
}

pub proof fn lemma_digits_end_props(src: Seq<char>, p: int)
    requires
        0 <= p <= src.len(),
    ensures
        p <= sp_digits_end(src, p) <= src.len(),
        forall|i: int| p <= i < sp_digits_end(src, p) ==> is_digit_char(#[trigger] src[i]),
        sp_digits_end(src, p) < src.len() ==> !is_digit_char(src[sp_digits_end(src, p)]),
    decreases src.len() - p,
{
    if p < src.len() && is_digit_char(src[p]) {
        lemma_digits_end_props(src, p + 1);
    }
}

pub proof fn lemma_find_end_props(src: Seq<char>, p: int, stop: char)
    requires
        0 <= p <= src.len(),
    ensures
        p <= sp_find_end(src, p, stop) <= src.len(),
        forall|i: int| p <= i < sp_find_end(src, p, stop) ==> #[trigger] src[i] != stop,
        sp_find_end(src, p, stop) < src.len() ==> src[sp_find_end(src, p, stop)] == stop,
    decreases src.len() - p,
{
    if p < src.len() && src[p] != stop {
        lemma_find_end_props(src, p + 1, stop);
    }
}

// ---------------------------------------------------------------------------
// Tokens at the specification level
// ---------------------------------------------------------------------------

/// Matches identifier text against the fixed reserved-word table; an
/// unmatched name is an identifier.
pub open spec fn keyword_of(name: Seq<char>) -> TokenView {
    if name == "and"@ {
        TokenView::And
    } else if name == "break"@ {
        TokenView::Break
    } else if name == "do"@ {
        TokenView::Do
    } else if name == "else"@ {
        TokenView::Else
    } else if name == "elseif"@ {
        TokenView::Elseif
    } else if name == "end"@ {
        TokenView::End
    } else if name == "false"@ {
        TokenView::False
    } else if name == "for"@ {
        TokenView::For
    } else if name == "function"@ {
        TokenView::Function
    } else if name == "goto"@ {
        TokenView::Goto
    } else if name == "if"@ {
        TokenView::If
    } else if name == "in"@ {
        TokenView::In
    } else if name == "local"@ {
        TokenView::Local
    } else if name == "nil"@ {
        TokenView::Nil
    } else if name == "not"@ {
        TokenView::Not
    } else if name == "or"@ {
        TokenView::Or
    } else if name == "repeat"@ {
        TokenView::Repeat
    } else if name == "return"@ {
        TokenView::Return
    } else if name == "then"@ {
        TokenView::Then
    } else if name == "true"@ {
        TokenView::True
    } else if name == "until"@ {
        TokenView::Until
    } else if name == "while"@ {
        TokenView::While
    } else {
        TokenView::Name(name)
    }
}

/// The numeric token starting at the digit at `p`: its value (or `None` when
/// an integer literal does not fit an `i64` and is silently dropped) and the
/// position after its text.
pub open spec fn sp_number_token(src: Seq<char>, p: int) -> (Option<TokenView>, int) {
    let d1 = sp_digits_end(src, p);
    if d1 < src.len() && src[d1] == '.' {
        let e = sp_digits_end(src, d1 + 1);
        (Some(TokenView::ConstFloat(src.subrange(p, e))), e)
    } else {
        let v = digits_val(src.subrange(p, d1));
        if v <= i64::MAX {
            (Some(TokenView::ConstInteger(v)), d1)
        } else {
            (None, d1)
        }
    }
}

/// The string token whose opening quote stands at `p`: the characters up to
/// the matching quote, copied verbatim, or up to end of input when the
/// literal is unterminated.
pub open spec fn sp_string_token(src: Seq<char>, p: int) -> (TokenView, int) {
    let e = sp_find_end(src, p + 1, src[p]);
    (
        TokenView::ConstString(src.subrange(p + 1, e)),
        if e < src.len() {
            e + 1
        } else {
            e
        },
    )
}

/// The next token of `src` at cursor `pos` and the cursor position after it.
/// Whitespace is skipped, a `--` comment discards the rest of the line, an
/// unrecognized character or an integer literal that does not fit is silently
/// dropped, and scanning continues.
pub open spec fn sp_next(src: Seq<char>, pos: int) -> (TokenView, int)
    decreases src.len() - pos,
    when 0 <= pos <= src.len()
    via sp_next_dec
{
    let p = sp_skip_ws(src, pos);
    if p >= src.len() {
        (TokenView::Eos, p)
    } else {
        let c = src[p];
        if is_ident_start_char(c) {
            (keyword_of(src.subrange(p, sp_ident_end(src, p))), sp_ident_end(src, p))
        } else if is_digit_char(c) {
            match sp_number_token(src, p) {
                (Some(t), e) => (t, e),
                (None, e) => sp_next(src, e),
            }
        } else if c == '"' || c == '\'' {
            sp_string_token(src, p)
        } else if c == '-' {
            if p + 1 < src.len() && src[p + 1] == '-' {
                let nl = sp_find_end(src, p + 2, '\n');
                sp_next(
                    src,
                    if nl < src.len() {
                        nl + 1
                    } else {
                        nl
                    },
                )
            } else {
                (TokenView::Sub, p + 1)
            }
        } else if c == '+' {
            (TokenView::Add, p + 1)
        } else if c == '*' {
            (TokenView::Mul, p + 1)
        } else if c == '/' {
            if p + 1 < src.len() && src[p + 1] == '/' {
                (TokenView::Idiv, p + 2)
            } else {
                (TokenView::Div, p + 1)
            }
        } else if c == '%' {
            (TokenView::Mod, p + 1)
        } else if c == '^' {
            (TokenView::Pow, p + 1)
        } else if c == '#' {
            (TokenView::Len, p + 1)
        } else if c == '&' {
            (TokenView::BitAnd, p + 1)
        } else if c == '~' {
            if p + 1 < src.len() && src[p + 1] == '=' {
                (TokenView::NotEq, p + 2)
            } else {
                (TokenView::BitXor, p + 1)
            }
        } else if c == '|' {
            (TokenView::BitOr, p + 1)
        } else if c == '<' {
            if p + 1 < src.len() && src[p + 1] == '<' {
                (TokenView::ShiftLeft, p + 2)
            } else if p + 1 < src.len() && src[p + 1] == '=' {
                (TokenView::LessEq, p + 2)
            } else {
                (TokenView::Less, p + 1)
            }
        } else if c == '>' {
            if p + 1 < src.len() && src[p + 1] == '>' {
                (TokenView::ShiftRight, p + 2)
            } else if p + 1 < src.len() && src[p + 1] == '=' {
                (TokenView::GreaterEq, p + 2)
            } else {
                (TokenView::Greater, p + 1)
            }
        } else if c == '=' {
            if p + 1 < src.len() && src[p + 1] == '=' {
                (TokenView::Eq, p + 2)
            } else {
                (TokenView::Assign, p + 1)
            }
        } else if c == '(' {
            (TokenView::ParLeft, p + 1)
        } else if c == ')' {
            (TokenView::ParRight, p + 1)
        } else if c == '{' {
            (TokenView::CurlyLeft, p + 1)
        } else if c == '}' {
            (TokenView::CurlyRight, p + 1)
        } else if c == '[' {
            (TokenView::SqurLeft, p + 1)
        } else if c == ']' {
            (TokenView::SqurRight, p + 1)
        } else if c == ':' {
            if p + 1 < src.len() && src[p + 1] == ':' {
                (TokenView::DoubColon, p + 2)
            } else {
                (TokenView::Colon, p + 1)
            }
        } else if c == ';' {
            (TokenView::SemiColon, p + 1)
        } else if c == ',' {
            (TokenView::Comma, p + 1)
        } else if c == '.' {
            if p + 1 < src.len() && src[p + 1] == '.' {
                if p + 2 < src.len() && src[p + 2] == '.' {
                    (TokenView::Dots, p + 3)
                } else {
                    (TokenView::Concat, p + 2)
                }
            } else {
                (TokenView::Dot, p + 1)
            }
        } else {
            sp_next(src, p + 1)
        }
    }
}

#[via_fn]
proof fn sp_next_dec(src: Seq<char>, pos: int) {
    lemma_skip_ws_props(src, pos);
    let p = sp_skip_ws(src, pos);
    if p < src.len() {
        if is_digit_char(src[p]) {
            assert(sp_digits_end(src, p) == sp_digits_end(src, p + 1));
            lemma_digits_end_props(src, p + 1);
        }
        if p + 2 <= src.len() {
            lemma_find_end_props(src, p + 2, '\n');
        }
    }
}

/// The cursor never moves backwards, stays within the buffer, and strictly
/// advances whenever a real token is produced.
pub proof fn lemma_sp_next_progress(src: Seq<char>, pos: int)
    requires
        0 <= pos <= src.len(),
    ensures
        ({
            let (t, p) = sp_next(src, pos);
            pos <= p <= src.len() && (!(t is Eos) ==> p > pos)
        }),
    decreases src.len() - pos,
{
    lemma_skip_ws_props(src, pos);
    let p = sp_skip_ws(src, pos);
    if p < src.len() {
        let c = src[p];
        if is_ident_start_char(c) {
            assert(sp_ident_end(src, p) == sp_ident_end(src, p + 1));
            lemma_ident_end_props(src, p + 1);
        } else if is_digit_char(c) {
            assert(sp_digits_end(src, p) == sp_digits_end(src, p + 1));
            lemma_digits_end_props(src, p + 1);
            let d1 = sp_digits_end(src, p);
            if d1 < src.len() && src[d1] == '.' {
                lemma_digits_end_props(src, d1 + 1);
            } else if digits_val(src.subrange(p, d1)) > i64::MAX {
                lemma_sp_next_progress(src, d1);
            }
        } else if c == '"' || c == '\'' {
            lemma_find_end_props(src, p + 1, c);
        } else if c == '-' && p + 1 < src.len() && src[p + 1] == '-' {
            lemma_find_end_props(src, p + 2, '\n');
            let nl = sp_find_end(src, p + 2, '\n');
            lemma_sp_next_progress(
                src,
                if nl < src.len() {
                    nl + 1
                } else {
                    nl
                },
            );
        } else if !is_ident_start_char(c) && !is_digit_char(c) && c != '"' && c != '\'' && c != '-'
            && c != '+' && c != '*' && c != '/' && c != '%' && c != '^' && c != '#' && c != '&' && c
            != '~' && c != '|' && c != '<' && c != '>' && c != '=' && c != '(' && c != ')' && c
            != '{' && c != '}' && c != '[' && c != ']' && c != ':' && c != ';' && c != ',' && c
            != '.' {
            lemma_sp_next_progress(src, p + 1);
        }
    }
}

// ---------------------------------------------------------------------------
// The executable lexer
// ---------------------------------------------------------------------------

/// The lexer: a source buffer and a monotonically advancing cursor.
#[derive(Debug)]
pub struct Lexer {
    pub src: Vec<char>,
    pub pos: usize,
}

impl Lexer {
    /// The cursor stays within the buffer.
    pub open spec fn wf(&self) -> bool {
        self.pos <= self.src@.len() && self.src@.len() <= usize::MAX
    }

    pub fn new(src: &str) -> (r: Lexer)
        ensures
            r.wf(),
            r.src@ == src@,
            r.pos == 0,
    {
        let n = src.unicode_len();
        let mut buf: Vec<char> = Vec::new();
        let mut i: usize = 0;
        while i < n
            invariant
                n == src@.len(),
                0 <= i <= n,
                buf@ =~= src@.take(i as int),
            decreases n - i,
        {
            buf.push(src.get_char(i));
            i += 1;
            proof {
                assert(src@.take(i as int) =~= src@.take(i - 1).push(src@[i - 1]));
            }
        }
        proof {
            assert(src@.take(n as int) =~= src@);
        }
        Lexer { src: buf, pos: 0 }
    }

    fn peek(&self) -> (r: Option<char>)
        ensures
            r == if self.pos < self.src@.len() {
                Some(self.src@[self.pos as int])
            } else {
                None::<char>
            },
    {
        if self.pos < self.src.len() {
            Some(self.src[self.pos])
        } else {
            None
        }
    }

    fn peek_next(&self) -> (r: Option<char>)
        ensures
            r == if self.pos + 1 < self.src@.len() {
                Some(self.src@[self.pos + 1])
            } else {
                None::<char>
            },
    {
        if self.pos < self.src.len() && self.pos + 1 < self.src.len() {
            Some(self.src[self.pos + 1])
        } else {
            None
        }
    }

    fn next_char(&mut self) -> (r: Option<char>)
        requires
            old(self).wf(),
        ensures
            final(self).wf(),
            final(self).src == old(self).src,
            if old(self).pos < old(self).src@.len() {
                r == Some(old(self).src@[old(self).pos as int]) && final(self).pos == old(self).pos
                    + 1
            } else {
                r == None::<char> && final(self).pos == old(self).pos
            },
    {
        if self.pos < self.src.len() {
            let c = self.src[self.pos];
            self.pos += 1;
            Some(c)
        } else {
            None
        }
    }

    fn skip_whitespace(&mut self)
        requires
            old(self).wf(),
        ensures
            final(self).wf(),
            final(self).src@ == old(self).src@,
            final(self).pos as int == sp_skip_ws(old(self).src@, old(self).pos as int),
            old(self).pos <= final(self).pos,
    {
        let ghost s = self.src@;
        let ghost p0 = self.pos as int;
        while self.pos < self.src.len() && ws_char(self.src[self.pos])
            invariant
                self.wf(),
                self.src@ == s,
                p0 <= self.pos as int,
                sp_skip_ws(s, p0) == sp_skip_ws(s, self.pos as int),
            decreases s.len() - self.pos,
        {
            self.pos += 1;
        }
    }

    fn parse_keyword(&mut self, c: char) -> (r: Token)
        requires
            old(self).wf(),
            old(self).pos < old(self).src@.len(),
            c == old(self).src@[old(self).pos as int],
            is_ident_start_char(c),
        ensures
            final(self).wf(),
            final(self).src@ == old(self).src@,
            final(self).pos as int == sp_ident_end(old(self).src@, old(self).pos as int),
            r@ == keyword_of(
                old(self).src@.subrange(
                    old(self).pos as int,
                    sp_ident_end(old(self).src@, old(self).pos as int),
                ),
            ),
            old(self).pos < final(self).pos,
    {
        let ghost s = self.src@;
        let ghost p0 = self.pos as int;
        proof {
            assert(sp_ident_end(s, p0) == sp_ident_end(s, p0 + 1));
            lemma_ident_end_props(s, p0 + 1);
        }
        let mut name = String::new();
        while self.pos < self.src.len() && ident_char(self.src[self.pos])
            invariant
                self.wf(),
                self.src@ == s,
                0 <= p0 <= self.pos as int,
                sp_ident_end(s, p0) == sp_ident_end(s, self.pos as int),
                name@ =~= s.subrange(p0, self.pos as int),
            decreases s.len() - self.pos,
        {
            let ch = self.src[self.pos];
            push_char(&mut name, ch);
            self.pos += 1;
            proof {
                assert(s.subrange(p0, self.pos as int) =~= s.subrange(p0, self.pos - 1).push(ch));
            }
        }
        if str_eq(name.as_str(), "and") {
            Token::And
        } else if str_eq(name.as_str(), "break") {
            Token::Break
        } else if str_eq(name.as_str(), "do") {
            Token::Do
        } else if str_eq(name.as_str(), "else") {
            Token::Else
        } else if str_eq(name.as_str(), "elseif") {
            Token::Elseif
        } else if str_eq(name.as_str(), "end") {
            Token::End
        } else if str_eq(name.as_str(), "false") {
            Token::False
        } else if str_eq(name.as_str(), "for") {
            Token::For
        } else if str_eq(name.as_str(), "function") {
            Token::Function
        } else if str_eq(name.as_str(), "goto") {
            Token::Goto
        } else if str_eq(name.as_str(), "if") {
            Token::If
        } else if str_eq(name.as_str(), "in") {
            Token::In
        } else if str_eq(name.as_str(), "local") {
            Token::Local
        } else if str_eq(name.as_str(), "nil") {
            Token::Nil
        } else if str_eq(name.as_str(), "not") {
            Token::Not
        } else if str_eq(name.as_str(), "or") {
            Token::Or
        } else if str_eq(name.as_str(), "repeat") {
            Token::Repeat
        } else if str_eq(name.as_str(), "return") {
            Token::Return
        } else if str_eq(name.as_str(), "then") {
            Token::Then
        } else if str_eq(name.as_str(), "true") {
            Token::True
        } else if str_eq(name.as_str(), "until") {
            Token::Until
        } else if str_eq(name.as_str(), "while") {
            Token::While
        } else {
            Token::Name(name)
        }
    }

    fn parse_number(&mut self, c: char) -> (r: Option<Token>)
        requires
            old(self).wf(),
            old(self).pos < old(self).src@.len(),
            c == old(self).src@[old(self).pos as int],
            is_digit_char(c),
        ensures
            final(self).wf(),
            final(self).src@ == old(self).src@,
            ({
                let (ot, e) = sp_number_token(old(self).src@, old(self).pos as int);
                final(self).pos as int == e && old(self).pos < final(self).pos && match (r, ot) {
                    (Some(t), Some(tv)) => t@ == tv,
                    (None, None) => true,
                    _ => false,
                }
            }),
    {
        let ghost s = self.src@;
        let ghost p0 = self.pos as int;
        proof {
            assert(sp_digits_end(s, p0) == sp_digits_end(s, p0 + 1));
            lemma_digits_end_props(s, p0 + 1);
        }
        let ghost d1 = sp_digits_end(s, p0);
        let mut number = String::new();
        while self.pos < self.src.len() && digit_char(self.src[self.pos])
            invariant
                self.wf(),
                self.src@ == s,
                0 <= p0 <= self.pos as int,
                sp_digits_end(s, p0) == sp_digits_end(s, self.pos as int),
                number@ =~= s.subrange(p0, self.pos as int),
                forall|i: int| p0 <= i < self.pos as int ==> is_digit_char(#[trigger] s[i]),
            decreases s.len() - self.pos,
        {
            let ch = self.src[self.pos];
            push_char(&mut number, ch);
            self.pos += 1;
            proof {
                assert(s.subrange(p0, self.pos as int) =~= s.subrange(p0, self.pos - 1).push(ch));
            }
        }
        assert(self.pos as int == d1);
        if self.pos < self.src.len() && self.src[self.pos] == '.' {
            // a single decimal point switches the literal to float mode
            push_char(&mut number, '.');
            self.pos += 1;
            let ghost f0 = self.pos as int;
            proof {
                assert(s.subrange(p0, f0) =~= s.subrange(p0, d1).push('.'));
            }
            while self.pos < self.src.len() && digit_char(self.src[self.pos])
                invariant
                    self.wf(),
                    self.src@ == s,
                    0 <= p0 < f0 <= self.pos as int,
                    sp_digits_end(s, f0) == sp_digits_end(s, self.pos as int),
                    number@ =~= s.subrange(p0, self.pos as int),
                decreases s.len() - self.pos,
            {
                let ch = self.src[self.pos];
                push_char(&mut number, ch);
                self.pos += 1;
                proof {
                    assert(s.subrange(p0, self.pos as int) =~= s.subrange(
                        p0,
                        self.pos - 1,
                    ).push(ch));
                }
            }
            return Some(Token::ConstFloat(number));
        }
        proof {
            assert forall|i: int| 0 <= i < number@.len() implies is_digit_char(
                #[trigger] number@[i],
            ) by {
                assert(number@[i] == s[p0 + i]);
            }
        }
        match parse_digits_i64(number.as_str()) {
            Some(v) => Some(Token::ConstInteger(v)),
            None => None,
        }
    }

    fn parse_string(&mut self, c: char) -> (r: Token)
        requires
            old(self).wf(),
            old(self).pos < old(self).src@.len(),
            c == old(self).src@[old(self).pos as int],
            c == '"' || c == '\'',
        ensures
            final(self).wf(),
            final(self).src@ == old(self).src@,
            ({
                let (tv, e) = sp_string_token(old(self).src@, old(self).pos as int);
                r@ == tv && final(self).pos as int == e && old(self).pos < final(self).pos
            }),
    {
        let ghost s = self.src@;
        let ghost p0 = self.pos as int;
        let _ = self.next_char();
        let mut buf = String::new();
        while self.pos < self.src.len() && self.src[self.pos] != c
            invariant
                self.wf(),
                self.src@ == s,
                0 <= p0 && p0 + 1 <= self.pos as int,
                sp_find_end(s, p0 + 1, c) == sp_find_end(s, self.pos as int, c),
                buf@ =~= s.subrange(p0 + 1, self.pos as int),
            decreases s.len() - self.pos,
        {
            let ch = self.src[self.pos];
            push_char(&mut buf, ch);
            self.pos += 1;
            proof {
                assert(s.subrange(p0 + 1, self.pos as int) =~= s.subrange(
                    p0 + 1,
                    self.pos - 1,
                ).push(ch));
            }
        }
        if self.pos < self.src.len() {
            // consume the closing quote
            self.pos += 1;
        }
        Token::ConstString(buf)
    }

    /// Produces the next token; whitespace and `--` line comments are
    /// skipped, unrecognized characters and integer literals that do not fit
    /// are silently discarded, and `Eos` marks the end of the buffer.
    #[verifier::loop_isolation(false)]
    pub fn next(&mut self) -> (t: Token)
        requires
            old(self).wf(),
        ensures
            final(self).wf(),
            final(self).src@ == old(self).src@,
            ({
                let (tv, p) = sp_next(old(self).src@, old(self).pos as int);
                t@ == tv && final(self).pos as int == p
            }),
    {
        let ghost s = self.src@;
        let ghost p0 = self.pos as int;
        loop
            invariant
                self.wf(),
                self.src@ == s,
                0 <= self.pos as int <= s.len(),
                sp_next(s, p0) == sp_next(s, self.pos as int),
            decreases s.len() - self.pos,
        {
            let ghost hp = self.pos as int;
            self.skip_whitespace();
            let ghost p = self.pos as int;
            proof {
                lemma_skip_ws_props(s, hp);
                assert(sp_skip_ws(s, p) == p);
            }
            let copt = self.peek();
            let c = match copt {
                None => { return Token::Eos; },
                Some(c) => c,
            };
            if ident_start_char(c) {
                return self.parse_keyword(c);
            } else if digit_char(c) {
                match self.parse_number(c) {
                    Some(t) => { return t; },
                    None => {
                        // malformed numeric literal: silently dropped
                    },
                }
            } else if c == '"' || c == '\'' {
                return self.parse_string(c);
            } else if c == '-' {
                let dash = match self.peek_next() {
                    Some(x) => x == '-',
                    None => false,
                };
                if dash {
                    // comment: discard the remainder of the line
                    self.pos += 2;
                    while self.pos < self.src.len() && self.src[self.pos] != '\n'
                        invariant
                            self.wf(),
                            self.src@ == s,
                            0 <= p && p + 2 <= self.pos as int,
                            sp_find_end(s, p + 2, '\n') == sp_find_end(s, self.pos as int, '\n'),
                        decreases s.len() - self.pos,
                    {
                        self.pos += 1;
                    }
                    if self.pos < self.src.len() {
                        self.pos += 1;
                    }
                } else {
                    self.pos += 1;
                    return Token::Sub;
                }
            } else if c == '+' {
                self.pos += 1;
                return Token::Add;
            } else if c == '*' {
                self.pos += 1;
                return Token::Mul;
            } else if c == '/' {
                let slash = match self.peek_next() {
                    Some(x) => x == '/',
                    None => false,
                };
                if slash {
                    self.pos += 2;
                    return Token::Idiv;
                } else {
                    self.pos += 1;
                    return Token::Div;
                }
            } else if c == '%' {
                self.pos += 1;
                return Token::Mod;
            } else if c == '^' {
                self.pos += 1;
                return Token::Pow;
            } else if c == '#' {
                self.pos += 1;
                return Token::Len;
            } else if c == '&' {
                self.pos += 1;
                return Token::BitAnd;
            } else if c == '~' {
                let eq = match self.peek_next() {
                    Some(x) => x == '=',
                    None => false,
                };
                if eq {
                    self.pos += 2;
                    return Token::NotEq;
                } else {
                    self.pos += 1;
                    return Token::BitXor;
                }
            } else if c == '|' {
                self.pos += 1;
                return Token::BitOr;
            } else if c == '<' {
                let lt = match self.peek_next() {
                    Some(x) => x == '<',
                    None => false,
                };
                let eq = match self.peek_next() {
                    Some(x) => x == '=',
                    None => false,
                };
                if lt {
                    self.pos += 2;
                    return Token::ShiftLeft;
                } else if eq {
                    self.pos += 2;
                    return Token::LessEq;
                } else {
                    self.pos += 1;
                    return Token::Less;
                }
            } else if c == '>' {
                let gt = match self.peek_next() {
                    Some(x) => x == '>',
                    None => false,
                };
                let eq = match self.peek_next() {
                    Some(x) => x == '=',
                    None => false,
                };
                if gt {
                    self.pos += 2;
                    return Token::ShiftRight;
                } else if eq {
                    self.pos += 2;
                    return Token::GreaterEq;
                } else {
                    self.pos += 1;
                    return Token::Greater;
                }
            } else if c == '=' {
                let eq = match self.peek_next() {
                    Some(x) => x == '=',
                    None => false,
                };
                if eq {
                    self.pos += 2;
                    return Token::Eq;
                } else {
                    self.pos += 1;
                    return Token::Assign;
                }
            } else if c == '(' {
                self.pos += 1;
                return Token::ParLeft;
            } else if c == ')' {
                self.pos += 1;
                return Token::ParRight;
            } else if c == '{' {
                self.pos += 1;
                return Token::CurlyLeft;
            } else if c == '}' {
                self.pos += 1;
                return Token::CurlyRight;
            } else if c == '[' {
                self.pos += 1;
                return Token::SqurLeft;
            } else if c == ']' {
                self.pos += 1;
                return Token::SqurRight;
            } else if c == ':' {
                let col = match self.peek_next() {
                    Some(x) => x == ':',
                    None => false,
                };
                if col {
                    self.pos += 2;
                    return Token::DoubColon;
                } else {
                    self.pos += 1;
                    return Token::Colon;
                }
            } else if c == ';' {
                self.pos += 1;
                return Token::SemiColon;
            } else if c == ',' {
                self.pos += 1;
                return Token::Comma;
            } else if c == '.' {
                let dot2 = match self.peek_next() {
                    Some(x) => x == '.',
                    None => false,
                };
                if dot2 {
                    let dot3 = self.pos + 2 < self.src.len() && self.src[self.pos + 2] == '.';
                    if dot3 {
                        self.pos += 3;
                        return Token::Dots;
                    } else {
                        self.pos += 2;
                        return Token::Concat;
                    }
                } else {
                    self.pos += 1;
                    return Token::Dot;
                }
            } else {
                // unrecognized character: silently discarded
                let _ = self.next_char();
            }
        }
    }
}

/// An unterminated string literal at end of input still yields a string token
/// carrying the characters scanned so far, not a lexical fault.
pub proof fn lemma_unterminated_string(src: Seq<char>, pos: int)
    requires
        0 <= pos <= src.len(),
        ({
            let p = sp_skip_ws(src, pos);
            p < src.len() && (src[p] == '"' || src[p] == '\'') && forall|j: int|
                p < j < src.len() ==> src[j] != src[p]
        }),
    ensures
        ({
            let p = sp_skip_ws(src, pos);
            sp_next(src, pos) == (
                TokenView::ConstString(src.subrange(p + 1, src.len() as int)),
                src.len() as int,
            )
        }),
{
    lemma_skip_ws_props(src, pos);
    let p = sp_skip_ws(src, pos);
    let c = src[p];
    lemma_find_end_props(src, p + 1, c);
    let e = sp_find_end(src, p + 1, c);
    if e < src.len() {
        assert(src[e] == c);
        assert(false);
    }
}

} // verus!
