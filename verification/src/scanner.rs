//! The scanner: characters in, tokens out, one token per pull.

use vstd::prelude::*;

use crate::binary_op::BinaryOp;
use crate::error::TokenError;
use crate::number::{digits_end, is_number_literal, mul_bits, mul_number, number_bits, parse_number, NEG_ONE_BITS};
use crate::scope::str_eq;
use vstd::string::StrSliceExecFns;

verus! {

/// A lexical token. `Number` holds the bit pattern of an IEEE 754 binary64
/// value; see `crate::number`.
#[derive(Clone, Debug, PartialEq)]
pub enum Token {
    OpenParen,
    CloseParen,
    OpenCurly,
    CloseCurly,
    Comma,
    Eq,
    DoubleEq,
    Lt,
    LtEq,
    Gt,
    GtEq,
    Plus,
    Minus,
    Times,
    Divide,
    Percent,
    Nil,
    If,
    Else,
    While,
    Boolean(bool),
    Identifier(String),
    Number(u64),
    String(String),
}

/// The mathematical shape of a token: text as a sequence of characters.
pub enum TokenV {
    OpenParen,
    CloseParen,
    OpenCurly,
    CloseCurly,
    Comma,
    Eq,
    DoubleEq,
    Lt,
    LtEq,
    Gt,
    GtEq,
    Plus,
    Minus,
    Times,
    Divide,
    Percent,
    Nil,
    If,
    Else,
    While,
    Boolean(bool),
    Identifier(Seq<char>),
    Number(u64),
    String(Seq<char>),
}

impl View for Token {
    type V = TokenV;

    open spec fn view(&self) -> TokenV {
        match self {
            Token::OpenParen => TokenV::OpenParen,
            Token::CloseParen => TokenV::CloseParen,
            Token::OpenCurly => TokenV::OpenCurly,
            Token::CloseCurly => TokenV::CloseCurly,
            Token::Comma => TokenV::Comma,
            Token::Eq => TokenV::Eq,
            Token::DoubleEq => TokenV::DoubleEq,
            Token::Lt => TokenV::Lt,
            Token::LtEq => TokenV::LtEq,
            Token::Gt => TokenV::Gt,
            Token::GtEq => TokenV::GtEq,
            Token::Plus => TokenV::Plus,
            Token::Minus => TokenV::Minus,
            Token::Times => TokenV::Times,
            Token::Divide => TokenV::Divide,
            Token::Percent => TokenV::Percent,
            Token::Nil => TokenV::Nil,
            Token::If => TokenV::If,
            Token::Else => TokenV::Else,
            Token::While => TokenV::While,
            Token::Boolean(b) => TokenV::Boolean(*b),
            Token::Identifier(s) => TokenV::Identifier(s@),
            Token::Number(n) => TokenV::Number(*n),
            Token::String(s) => TokenV::String(s@),
        }
    }
}

/// The binary operator a token stands for, if any.
pub open spec fn spec_to_binary_op(t: TokenV) -> Option<BinaryOp> {
    match t {
        TokenV::DoubleEq => Some(BinaryOp::Eq),
        TokenV::Lt => Some(BinaryOp::Lt),
        TokenV::LtEq => Some(BinaryOp::LtEq),
        TokenV::Gt => Some(BinaryOp::Gt),
        TokenV::GtEq => Some(BinaryOp::GtEq),
        TokenV::Plus => Some(BinaryOp::Add),
        TokenV::Minus => Some(BinaryOp::Sub),
        TokenV::Times => Some(BinaryOp::Mul),
        TokenV::Divide => Some(BinaryOp::Div),
        TokenV::Percent => Some(BinaryOp::Mod),
        _ => None,
    }
}

/// Whitespace skipped between tokens.
pub open spec fn spec_is_space(c: char) -> bool {
    c == ' ' || c == '\t' || c == '\n' || c == '\r'
}

/// A character that may start or continue a word.
pub open spec fn spec_is_alpha(c: char) -> bool {
    c == '_' || ('a' <= c && c <= 'z') || ('A' <= c && c <= 'Z')
}

/// A decimal digit.
pub open spec fn spec_is_digit(c: char) -> bool {
    '0' <= c && c <= '9'
}

/// The first position at or after `i` that holds no whitespace.
pub open spec fn space_end(s: Seq<char>, i: int) -> int
    decreases s.len() - i,
{
    if 0 <= i < s.len() && spec_is_space(s[i]) {
        space_end(s, i + 1)
    } else {
        i
    }
}

/// The first position at or after `i` that holds no word character.
pub open spec fn word_end(s: Seq<char>, i: int) -> int
    decreases s.len() - i,
{
    if 0 <= i < s.len() && (spec_is_alpha(s[i]) || spec_is_digit(s[i])) {
        word_end(s, i + 1)
    } else {
        i
    }
}

/// Where a numeric literal starting at `i` ends: a run of digits,
/// optionally followed by `.` and more digits.
pub open spec fn num_end(s: Seq<char>, i: int) -> int {
    let d = digits_end(s, i);
    if d < s.len() && s[d] == '.' {
        digits_end(s, d + 1)
    } else {
        d
    }
}

/// The token a word denotes: a keyword token for the reserved words, an
/// identifier for anything else.
pub open spec fn spec_word_token(w: Seq<char>) -> TokenV {
    if w == "nil"@ {
        TokenV::Nil
    } else if w == "if"@ {
        TokenV::If
    } else if w == "else"@ {
        TokenV::Else
    } else if w == "while"@ {
        TokenV::While
    } else if w == "true"@ {
        TokenV::Boolean(true)
    } else if w == "false"@ {
        TokenV::Boolean(false)
    } else {
        TokenV::Identifier(w)
    }
}

/// Scanning the body of a string literal from position `i` (just after the
/// opening quote): the text up to the closing quote and the position after
/// it, or the lexical error and the position to resume from. Only `\"` and
/// `\\` are recognized escapes; input ending first is an incomplete string.
pub open spec fn scan_string(s: Seq<char>, i: int) -> (Result<Seq<char>, TokenError>, int)
    decreases s.len() - i,
{
    if !(0 <= i < s.len()) {
        (Err(TokenError::IncompleteString), i)
    } else if s[i] == '"' {
        (Ok(Seq::empty()), i + 1)
    } else if s[i] == '\\' {
        if i + 1 < s.len() && (s[i + 1] == '"' || s[i + 1] == '\\') {
            let r = scan_string(s, i + 2);
            (
                match r.0 {
                    Ok(t) => Ok(seq![s[i + 1]] + t),
                    Err(e) => Err(e),
                },
                r.1,
            )
        } else {
            (Err(TokenError::InvalidEscape), i + 1)
        }
    } else {
        let r = scan_string(s, i + 1);
        (
            match r.0 {
                Ok(t) => Ok(seq![s[i]] + t),
                Err(e) => Err(e),
            },
            r.1,
        )
    }
}

/// One step of scanning: what pulling the next token from position `i`
/// yields, and the position after it. `None` means the input is exhausted.
pub open spec fn spec_scan(s: Seq<char>, i: int) -> (Option<Result<TokenV, TokenError>>, int) {
    let j = space_end(s, i);
    if !(0 <= j < s.len()) {
        (None, j)
    } else {
        let c = s[j];
        if c == '(' {
            (Some(Ok(TokenV::OpenParen)), j + 1)
        } else if c == ')' {
            (Some(Ok(TokenV::CloseParen)), j + 1)
        } else if c == '{' {
            (Some(Ok(TokenV::OpenCurly)), j + 1)
        } else if c == '}' {
            (Some(Ok(TokenV::CloseCurly)), j + 1)
        } else if c == ',' {
            (Some(Ok(TokenV::Comma)), j + 1)
        } else if c == '=' {
            if j + 1 < s.len() && s[j + 1] == '=' {
                (Some(Ok(TokenV::DoubleEq)), j + 2)
            } else {
                (Some(Ok(TokenV::Eq)), j + 1)
            }
        } else if c == '<' {
            if j + 1 < s.len() && s[j + 1] == '=' {
                (Some(Ok(TokenV::LtEq)), j + 2)
            } else {
                (Some(Ok(TokenV::Lt)), j + 1)
            }
        } else if c == '>' {
            if j + 1 < s.len() && s[j + 1] == '=' {
                (Some(Ok(TokenV::GtEq)), j + 2)
            } else {
                (Some(Ok(TokenV::Gt)), j + 1)
            }
        } else if c == '+' {
            if j + 1 < s.len() && spec_is_digit(s[j + 1]) {
                let e = num_end(s, j + 1);
                (Some(Ok(TokenV::Number(number_bits(s.subrange(j + 1, e))))), e)
            } else {
                (Some(Ok(TokenV::Plus)), j + 1)
            }
        } else if c == '-' {
            if j + 1 < s.len() && spec_is_digit(s[j + 1]) {
                let e = num_end(s, j + 1);
                (
                    Some(
                        Ok(TokenV::Number(mul_bits(number_bits(s.subrange(j + 1, e)), NEG_ONE_BITS))),
                    ),
                    e,
                )
            } else {
                (Some(Ok(TokenV::Minus)), j + 1)
            }
        } else if c == '*' {
            (Some(Ok(TokenV::Times)), j + 1)
        } else if c == '/' {
            (Some(Ok(TokenV::Divide)), j + 1)
        } else if c == '%' {
            (Some(Ok(TokenV::Percent)), j + 1)
        } else if c == '"' {
            let r = scan_string(s, j + 1);
            (
                match r.0 {
                    Ok(t) => Some(Ok(TokenV::String(t))),
                    Err(e) => Some(Err(e)),
                },
                r.1,
            )
        } else if spec_is_alpha(c) {
            let e = word_end(s, j);
            (Some(Ok(spec_word_token(s.subrange(j, e)))), e)
        } else if spec_is_digit(c) {
            let e = num_end(s, j);
            (Some(Ok(TokenV::Number(number_bits(s.subrange(j, e))))), e)
        } else {
            (Some(Err(TokenError::UnexpectedChar(c))), j + 1)
        }
    }
}

/// The view of one scanned item.
pub open spec fn scan_item_view(r: Option<Result<Token, TokenError>>) -> Option<
    Result<TokenV, TokenError>,
> {
    match r {
        None => None,
        Some(Ok(t)) => Some(Ok(t@)),
        Some(Err(e)) => Some(Err(e)),
    }
}

impl Token {
    /// The binary operator this token stands for, if any.
    pub fn to_binary_op(&self) -> (r: Option<BinaryOp>)
        ensures
            r == spec_to_binary_op(self@),
    {
        match self {
            Token::DoubleEq => Some(BinaryOp::Eq),
            Token::Lt => Some(BinaryOp::Lt),
            Token::LtEq => Some(BinaryOp::LtEq),
            Token::Gt => Some(BinaryOp::Gt),
            Token::GtEq => Some(BinaryOp::GtEq),
            Token::Plus => Some(BinaryOp::Add),
            Token::Minus => Some(BinaryOp::Sub),
            Token::Times => Some(BinaryOp::Mul),
            Token::Divide => Some(BinaryOp::Div),
            Token::Percent => Some(BinaryOp::Mod),
            _ => None,
        }
    }
}

/// A well-formed scanner's cursor lies within its text.
pub proof fn lemma_scanner_in_range(sc: &Scanner)
    requires
        sc.wf(),
    ensures
        0 <= sc.position() <= sc.text().len(),
{
}

/// Skipping spaces stays between the start position and the end of text.
pub proof fn lemma_space_end(s: Seq<char>, i: int)
    requires
        0 <= i <= s.len(),
    ensures
        i <= space_end(s, i) <= s.len(),
    decreases s.len() - i,
{
    if i < s.len() && spec_is_space(s[i]) {
        lemma_space_end(s, i + 1);
    }
}

/// A word ends between its start and the end of text.
pub proof fn lemma_word_end(s: Seq<char>, i: int)
    requires
        0 <= i <= s.len(),
    ensures
        i <= word_end(s, i) <= s.len(),
    decreases s.len() - i,
{
    if i < s.len() && (spec_is_alpha(s[i]) || spec_is_digit(s[i])) {
        lemma_word_end(s, i + 1);
    }
}

/// A digit run ends between its start and the end of text.
pub proof fn lemma_digits_end(s: Seq<char>, i: int)
    requires
        0 <= i <= s.len(),
    ensures
        i <= digits_end(s, i) <= s.len(),
    decreases s.len() - i,
{
    if i < s.len() && spec_is_digit(s[i]) {
        lemma_digits_end(s, i + 1);
    }
}

/// Scanning a string body never moves backwards nor past the end.
pub proof fn lemma_scan_string_pos(s: Seq<char>, i: int)
    requires
        0 <= i <= s.len(),
    ensures
        i <= scan_string(s, i).1 <= s.len(),
    decreases s.len() - i,
{
    if 0 <= i < s.len() {
        if s[i] == '"' {
        } else if s[i] == '\\' {
            if i + 1 < s.len() && (s[i + 1] == '"' || s[i + 1] == '\\') {
                lemma_scan_string_pos(s, i + 2);
            }
        } else {
            lemma_scan_string_pos(s, i + 1);
        }
    }
}

/// One scan step stays within the text and, when it yields an item,
/// consumes at least one character.
pub proof fn lemma_scan_bounds(s: Seq<char>, i: int)
    requires
        0 <= i <= s.len(),
    ensures
        i <= spec_scan(s, i).1 <= s.len(),
        spec_scan(s, i).0 is Some ==> spec_scan(s, i).1 > i,
        spec_scan(s, i).0 is None ==> spec_scan(s, i).1 == space_end(s, i),
{
    lemma_space_end(s, i);
    let j = space_end(s, i);
    if j < s.len() {
        let c = s[j];
        lemma_word_end(s, j);
        lemma_digits_end(s, j);
        if spec_is_alpha(c) {
            assert(word_end(s, j) == word_end(s, j + 1));
            lemma_word_end(s, j + 1);
        }
        if spec_is_digit(c) {
            assert(digits_end(s, j) == digits_end(s, j + 1));
            lemma_digits_end(s, j + 1);
            let d = digits_end(s, j);
            if d < s.len() && s[d] == '.' {
                lemma_digits_end(s, d + 1);
            }
        }
        if c == '+' || c == '-' {
            if j + 1 < s.len() && spec_is_digit(s[j + 1]) {
                lemma_digits_end(s, j + 1);
                assert(digits_end(s, j + 1) == digits_end(s, j + 2));
                lemma_digits_end(s, j + 2);
                let d = digits_end(s, j + 1);
                if d < s.len() && s[d] == '.' {
                    lemma_digits_end(s, d + 1);
                }
            }
        }
        if c == '"' {
            lemma_scan_string_pos(s, j + 1);
        }
    }
}

/// Law: for each operator that may pair with a following `=` (`=`, `<` and
/// `>`), the scanner consumes that second `=` exactly when it is present,
/// yielding the two-character operator token; otherwise it yields the
/// one-character token and consumes the one character alone.
pub proof fn lemma_two_char_operator(s: Seq<char>, i: int)
    requires
        0 <= i <= s.len(),
        ({
            let j = space_end(s, i);
            j < s.len() && (s[j] == '=' || s[j] == '<' || s[j] == '>')
        }),
    ensures
        ({
            let j = space_end(s, i);
            if j + 1 < s.len() && s[j + 1] == '=' {
                &&& spec_scan(s, i).1 == j + 2
                &&& spec_scan(s, i).0 == Some(
                    Ok::<TokenV, TokenError>(
                        if s[j] == '=' {
                            TokenV::DoubleEq
                        } else if s[j] == '<' {
                            TokenV::LtEq
                        } else {
                            TokenV::GtEq
                        },
                    ),
                )
            } else {
                &&& spec_scan(s, i).1 == j + 1
                &&& spec_scan(s, i).0 == Some(
                    Ok::<TokenV, TokenError>(
                        if s[j] == '=' {
                            TokenV::Eq
                        } else if s[j] == '<' {
                            TokenV::Lt
                        } else {
                            TokenV::Gt
                        },
                    ),
                )
            }
        }),
{
    lemma_space_end(s, i);
}

proof fn lemma_digits_end_at(t: Seq<char>, j: int, k: int)
    requires
        0 <= j <= k <= t.len(),
        forall|m: int| j <= m < k ==> spec_is_digit(t[m]),
        k == t.len() || !spec_is_digit(t[k]),
    ensures
        digits_end(t, j) == k,
    decreases k - j,
{
    if j < k {
        lemma_digits_end_at(t, j + 1, k);
    }
}

/// Relies on `String::push`: appends one character.
#[verifier::external_body]
fn push_char(s: &mut String, c: char)
    ensures
        final(s)@ == old(s)@.push(c),
{
    s.push(c);
}

/// The scanner: an explicit cursor over the characters of one input text.
/// Each call of `next` yields one token or one lexical error; scanning may
/// resume after an error.
pub struct Scanner {
    chars: Vec<char>,
    pos: usize,
}

impl Scanner {
    /// The text being scanned.
    pub closed spec fn text(&self) -> Seq<char> {
        self.chars@
    }

    /// The current position, in characters.
    pub closed spec fn position(&self) -> int {
        self.pos as int
    }

    /// The cursor never passes the end of the text.
    pub closed spec fn wf(&self) -> bool {
        self.pos <= self.chars@.len()
    }

    /// A scanner at the start of the given text.
    pub fn new(input: &str) -> (r: Scanner)
        ensures
            r.wf(),
            r.text() == input@,
            r.position() == 0,
    {
        let n = input.unicode_len();
        let mut chars: Vec<char> = Vec::new();
        let mut i: usize = 0;
        while i < n
            invariant
                n == input@.len(),
                i <= n,
                chars@ == input@.subrange(0, i as int),
            decreases n - i,
        {
            chars.push(input.get_char(i));
            i += 1;
            proof {
                assert(chars@ =~= input@.subrange(0, i as int));
            }
        }
        proof {
            assert(chars@ =~= input@);
        }
        Scanner { chars, pos: 0 }
    }

    fn is_space(c: char) -> (r: bool)
        ensures
            r == spec_is_space(c),
    {
        c == ' ' || c == '\t' || c == '\n' || c == '\r'
    }

    fn is_alpha(c: char) -> (r: bool)
        ensures
            r == spec_is_alpha(c),
    {
        c == '_' || ('a' <= c && c <= 'z') || ('A' <= c && c <= 'Z')
    }

    fn is_digit(c: char) -> (r: bool)
        ensures
            r == spec_is_digit(c),
    {
        '0' <= c && c <= '9'
    }

    /// Read a word (keyword or identifier) starting at the cursor.
    fn read_word(&mut self) -> (t: Token)
        requires
            old(self).wf(),
        ensures
            final(self).wf(),
            final(self).text() == old(self).text(),
            final(self).position() == word_end(old(self).text(), old(self).position()),
            t@ == spec_word_token(
                old(self).text().subrange(
                    old(self).position(),
                    word_end(old(self).text(), old(self).position()),
                ),
            ),
    {
        let ghost s = self.chars@;
        let ghost p0 = self.pos as int;
        let mut word = String::new();
        proof {
            assert(word@ =~= s.subrange(p0, self.pos as int));
        }
        while self.pos < self.chars.len() && (Self::is_digit(self.chars[self.pos]) || Self::is_alpha(
            self.chars[self.pos],
        ))
            invariant
                self.chars@ == s,
                0 <= p0 <= self.pos as int <= s.len(),
                word@ == s.subrange(p0, self.pos as int),
                word_end(s, p0) == word_end(s, self.pos as int),
            decreases s.len() - self.pos,
        {
            let c = self.chars[self.pos];
            push_char(&mut word, c);
            self.pos += 1;
            proof {
                assert(word@ =~= s.subrange(p0, self.pos as int));
            }
        }
        if str_eq(word.as_str(), "nil") {
            Token::Nil
        } else if str_eq(word.as_str(), "if") {
            Token::If
        } else if str_eq(word.as_str(), "else") {
            Token::Else
        } else if str_eq(word.as_str(), "while") {
            Token::While
        } else if str_eq(word.as_str(), "true") {
            Token::Boolean(true)
        } else if str_eq(word.as_str(), "false") {
            Token::Boolean(false)
        } else {
            Token::Identifier(word)
        }
    }

    /// Read a numeric literal starting at the cursor: digits, optionally
    /// followed by `.` and more digits.
    fn read_number(&mut self) -> (n: u64)
        requires
            old(self).wf(),
            old(self).position() < old(self).text().len(),
            spec_is_digit(old(self).text()[old(self).position()]),
        ensures
            final(self).wf(),
            final(self).text() == old(self).text(),
            final(self).position() == num_end(old(self).text(), old(self).position()),
            n == number_bits(
                old(self).text().subrange(
                    old(self).position(),
                    num_end(old(self).text(), old(self).position()),
                ),
            ),
    {
        let ghost s = self.chars@;
        let ghost p0 = self.pos as int;
        let mut num = String::new();
        proof {
            assert(num@ =~= s.subrange(p0, self.pos as int));
        }
        while self.pos < self.chars.len() && Self::is_digit(self.chars[self.pos])
            invariant
                self.chars@ == s,
                0 <= p0 <= self.pos as int <= s.len(),
                num@ == s.subrange(p0, self.pos as int),
                forall|m: int| p0 <= m < self.pos as int ==> spec_is_digit(s[m]),
                digits_end(s, p0) == digits_end(s, self.pos as int),
            decreases s.len() - self.pos,
        {
            let c = self.chars[self.pos];
            push_char(&mut num, c);
            self.pos += 1;
            proof {
                assert(num@ =~= s.subrange(p0, self.pos as int));
            }
        }
        let ghost d = self.pos as int;
        proof {
            assert(digits_end(s, p0) == d);
            lemma_digits_end_at(num@, 0, num@.len() as int);
        }
        if self.pos < self.chars.len() && self.chars[self.pos] == '.' {
            push_char(&mut num, '.');
            self.pos += 1;
            let ghost f0 = self.pos as int;
            proof {
                assert(num@ =~= s.subrange(p0, d) + seq!['.'] + s.subrange(f0, self.pos as int));
            }
            while self.pos < self.chars.len() && Self::is_digit(self.chars[self.pos])
                invariant
                    self.chars@ == s,
                    0 <= p0 <= d < f0 <= self.pos as int <= s.len(),
                    num@ == s.subrange(p0, d) + seq!['.'] + s.subrange(f0, self.pos as int),
                    forall|m: int| f0 <= m < self.pos as int ==> spec_is_digit(s[m]),
                    digits_end(s, f0) == digits_end(s, self.pos as int),
                decreases s.len() - self.pos,
            {
                let c = self.chars[self.pos];
                push_char(&mut num, c);
                self.pos += 1;
                proof {
                    assert(num@ =~= s.subrange(p0, d) + seq!['.'] + s.subrange(
                        f0,
                        self.pos as int,
                    ));
                }
            }
            proof {
                assert(digits_end(s, f0) == self.pos as int);
                assert(num@ =~= s.subrange(p0, self.pos as int));
                assert(forall|m: int| 0 <= m < d - p0 ==> spec_is_digit(num@[m]));
                assert(num@[d - p0] == '.');
                lemma_digits_end_at(num@, 0, d - p0);
                assert(forall|m: int| d - p0 + 1 <= m < num@.len() ==> spec_is_digit(num@[m]));
                lemma_digits_end_at(num@, d - p0 + 1, num@.len() as int);
                assert(is_number_literal(num@));
                assert(num_end(s, p0) == self.pos as int);
            }
            parse_number(num.as_str())
        } else {
            proof {
                assert(num_end(s, p0) == d);
                assert(is_number_literal(num@));
            }
            parse_number(num.as_str())
        }
    }

    /// Read a string literal whose opening quote stands at the cursor.
    fn read_string(&mut self) -> (r: Result<Token, TokenError>)
        requires
            old(self).wf(),
            old(self).position() < old(self).text().len(),
            old(self).text()[old(self).position()] == '"',
        ensures
            final(self).wf(),
            final(self).text() == old(self).text(),
            final(self).position() == scan_string(old(self).text(), old(self).position() + 1).1,
            match r {
                Ok(t) => scan_string(old(self).text(), old(self).position() + 1).0 matches Ok(b)
                    && t@ == TokenV::String(b),
                Err(e) => scan_string(old(self).text(), old(self).position() + 1).0 == Err::<
                    Seq<char>,
                    TokenError,
                >(e),
            },
    {
        let ghost s = self.chars@;
        let ghost p1 = self.pos as int + 1;
        let n = self.chars.len();
        // Skip the opening quote.
        self.pos += 1;
        let mut buf = String::new();
        proof {
            let cur = scan_string(s, self.pos as int);
            if cur.0 is Ok {
                assert(buf@ + cur.0->Ok_0 =~= cur.0->Ok_0);
            }
        }
        while self.pos < self.chars.len()
            invariant
                self.chars@ == s,
                s == old(self).text(),
                p1 == old(self).position() + 1,
                1 <= p1 <= self.pos as int <= s.len(),
                scan_string(s, p1).1 == scan_string(s, self.pos as int).1,
                scan_string(s, self.pos as int).0 matches Ok(t) ==> scan_string(s, p1).0
                    == Ok::<Seq<char>, TokenError>(buf@ + t),
                scan_string(s, self.pos as int).0 matches Err(e) ==> scan_string(s, p1).0
                    == Err::<Seq<char>, TokenError>(e),
            decreases s.len() - self.pos,
        {
            let c = self.chars[self.pos];
            if c == '"' {
                self.pos += 1;
                proof {
                    assert(buf@ + Seq::<char>::empty() =~= buf@);
                }
                return Ok(Token::String(buf));
            }
            if c == '\\' {
                if self.pos + 1 < self.chars.len() {
                    let c2 = self.chars[self.pos + 1];
                    if c2 == '"' || c2 == '\\' {
                        let ghost bufpre = buf@;
                        let ghost ppre = self.pos as int;
                        push_char(&mut buf, c2);
                        self.pos += 2;
                        proof {
                            let cur = scan_string(s, self.pos as int);
                            if cur.0 is Ok {
                                assert(bufpre + (seq![s[ppre + 1]] + cur.0->Ok_0) =~= buf@
                                    + cur.0->Ok_0);
                            }
                        }
                    } else {
                        self.pos += 1;
                        return Err(TokenError::InvalidEscape);
                    }
                } else {
                    self.pos += 1;
                    return Err(TokenError::InvalidEscape);
                }
            } else {
                let ghost bufpre = buf@;
                let ghost ppre = self.pos as int;
                push_char(&mut buf, c);
                self.pos += 1;
                proof {
                    let cur = scan_string(s, self.pos as int);
                    if cur.0 is Ok {
                        assert(bufpre + (seq![s[ppre]] + cur.0->Ok_0) =~= buf@ + cur.0->Ok_0);
                    }
                }
            }
        }
        Err(TokenError::IncompleteString)
    }

    /// Pull the next token, or the next lexical error, or `None` at the end
    /// of the input. The cursor moves exactly as `spec_scan` says.
    pub fn next(&mut self) -> (r: Option<Result<Token, TokenError>>)
        requires
            old(self).wf(),
        ensures
            final(self).wf(),
            final(self).text() == old(self).text(),
            scan_item_view(r) == spec_scan(old(self).text(), old(self).position()).0,
            final(self).position() == spec_scan(old(self).text(), old(self).position()).1,
    {
        let ghost s = self.chars@;
        let ghost p0 = self.pos as int;
        while self.pos < self.chars.len() && Self::is_space(self.chars[self.pos])
            invariant
                self.chars@ == s,
                0 <= p0 <= self.pos as int <= s.len(),
                space_end(s, p0) == space_end(s, self.pos as int),
            decreases s.len() - self.pos,
        {
            self.pos += 1;
        }
        proof {
            assert(space_end(s, p0) == self.pos as int);
        }
        if self.pos == self.chars.len() {
            return None;
        }
        let c = self.chars[self.pos];
        match c {
            '(' => {
                self.pos += 1;
                Some(Ok(Token::OpenParen))
            },
            ')' => {
                self.pos += 1;
                Some(Ok(Token::CloseParen))
            },
            '{' => {
                self.pos += 1;
                Some(Ok(Token::OpenCurly))
            },
            '}' => {
                self.pos += 1;
                Some(Ok(Token::CloseCurly))
            },
            ',' => {
                self.pos += 1;
                Some(Ok(Token::Comma))
            },
            '=' => {
                self.pos += 1;
                if self.pos < self.chars.len() && self.chars[self.pos] == '=' {
                    self.pos += 1;
                    Some(Ok(Token::DoubleEq))
                } else {
                    Some(Ok(Token::Eq))
                }
            },
            '<' => {
                self.pos += 1;
                if self.pos < self.chars.len() && self.chars[self.pos] == '=' {
                    self.pos += 1;
                    Some(Ok(Token::LtEq))
                } else {
                    Some(Ok(Token::Lt))
                }
            },
            '>' => {
                self.pos += 1;
                if self.pos < self.chars.len() && self.chars[self.pos] == '=' {
                    self.pos += 1;
                    Some(Ok(Token::GtEq))
                } else {
                    Some(Ok(Token::Gt))
                }
            },
            '+' => {
                self.pos += 1;
                if self.pos < self.chars.len() && Self::is_digit(self.chars[self.pos]) {
                    Some(Ok(Token::Number(self.read_number())))
                } else {
                    Some(Ok(Token::Plus))
                }
            },
            '-' => {
                self.pos += 1;
                if self.pos < self.chars.len() && Self::is_digit(self.chars[self.pos]) {
                    let n = self.read_number();
                    Some(Ok(Token::Number(mul_number(n, NEG_ONE_BITS))))
                } else {
                    Some(Ok(Token::Minus))
                }
            },
            '*' => {
                self.pos += 1;
                Some(Ok(Token::Times))
            },
            '/' => {
                self.pos += 1;
                Some(Ok(Token::Divide))
            },
            '%' => {
                self.pos += 1;
                Some(Ok(Token::Percent))
            },
            '"' => {
                match self.read_string() {
                    Ok(t) => Some(Ok(t)),
                    Err(e) => Some(Err(e)),
                }
            },
            _ => {
                if Self::is_alpha(c) {
                    Some(Ok(self.read_word()))
                } else if Self::is_digit(c) {
                    Some(Ok(Token::Number(self.read_number())))
                } else {
                    self.pos += 1;
                    Some(Err(TokenError::UnexpectedChar(c)))
                }
            },
        }
    }
}

} // verus!
