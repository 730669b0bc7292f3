//! The lexer: from the characters of a source text to its tokens.

use vstd::prelude::*;
use vstd::string::{StrSliceExecFns, StringExecFns};
use crate::provenance::{SourceMarker, SourceRange};

verus! {

#[derive(Clone, Debug, PartialEq, Eq)]
pub struct Token {
    pub value: TokenValue,
    pub range: SourceRange,
}

#[derive(Clone, Debug, PartialEq, Eq)]
pub enum TokenValue {
    Word(String),
    Int(u64),
    CharacterLiteral(char),
    StringLiteral(String),
    // Math operators
    Plus,
    Minus,
    Asterisk,
    ForwardSlash,
    PlusEquals,
    MinusEquals,
    AsteriskEquals,
    ForwardSlashEquals,
    LessThan,
    GreaterThan,
    LessEqualThan,
    GreaterEqualThan,
    EqualTo,
    NotEquals,
    // Boolean operators
    BooleanAnd,
    BooleanOr,
    // Misc operators
    Period,
    Concat,
    // Nullability
    NullCoalesce,
    NullChaining,
    // Markers
    Assign,
    Colon,
    Comma,
    Semicolon,
    QuestionMark,
    Exclamation,
    CaseRocket,
    VerticalPipe,
    // Braces
    OpenParen,
    CloseParen,
    OpenBracket,
    CloseBracket,
    OpenSquare,
    CloseSquare,
    // Keywords
    If,
    While,
    Loop,
    Let,
    True,
    False,
    Function,
    Gen,
    Import,
    Struct,
    Union,
    Unique,
    Ref,
    Return,
    Extern,
    Null,
    Dict,
    List,
    Rc,
    Cell,
    Interface,
    Yield,
    Void,
    Case,
    Borrow,
    Const,
    SelfKeyword,
    // Comments
    LineComment(String),
}

#[derive(Clone, Debug)]
pub enum LexError {
    UnexpectedStart(char, SourceMarker),
    IllegalNullByte(SourceMarker),
    UnterminatedLiteral(SourceMarker),
    IllegalEscapeSequence(SourceMarker),
}

impl TokenValue {
    /// Whether an expression cannot go on with this token: after `yield`,
    /// such a token says that nothing is yielded.
    pub open spec fn ends_expression(self) -> bool {
        match self {
            TokenValue::Word(_)
            | TokenValue::Int(_)
            | TokenValue::OpenParen
            | TokenValue::OpenBracket
            | TokenValue::CharacterLiteral(_)
            | TokenValue::OpenSquare
            | TokenValue::If
            | TokenValue::While
            | TokenValue::Loop
            | TokenValue::Dict
            | TokenValue::Rc
            | TokenValue::Cell
            | TokenValue::List
            | TokenValue::True
            | TokenValue::False
            | TokenValue::Unique
            | TokenValue::Ref
            | TokenValue::Null
            | TokenValue::Yield
            | TokenValue::Case
            | TokenValue::StringLiteral(_)
            | TokenValue::SelfKeyword => false,
            _ => true,
        }
    }

    /// Whether an expression cannot go on with this token.
    pub fn is_expression_boundary(&self) -> (b: bool)
        ensures
            b == self.ends_expression(),
    {
        match self {
            TokenValue::Word(_)
            | TokenValue::Int(_)
            | TokenValue::OpenParen
            | TokenValue::OpenBracket
            | TokenValue::CharacterLiteral(_)
            | TokenValue::OpenSquare
            | TokenValue::If
            | TokenValue::While
            | TokenValue::Loop
            | TokenValue::Dict
            | TokenValue::Rc
            | TokenValue::Cell
            | TokenValue::List
            | TokenValue::True
            | TokenValue::False
            | TokenValue::Unique
            | TokenValue::Ref
            | TokenValue::Null
            | TokenValue::Yield
            | TokenValue::Case
            | TokenValue::StringLiteral(_)
            | TokenValue::SelfKeyword => false,
            TokenValue::Plus
            | TokenValue::Minus
            | TokenValue::Asterisk
            | TokenValue::ForwardSlash
            | TokenValue::PlusEquals
            | TokenValue::MinusEquals
            | TokenValue::AsteriskEquals
            | TokenValue::ForwardSlashEquals
            | TokenValue::LessThan
            | TokenValue::GreaterThan
            | TokenValue::LessEqualThan
            | TokenValue::GreaterEqualThan
            | TokenValue::EqualTo
            | TokenValue::NotEquals
            | TokenValue::BooleanAnd
            | TokenValue::BooleanOr
            | TokenValue::Period
            | TokenValue::Concat
            | TokenValue::NullCoalesce
            | TokenValue::NullChaining
            | TokenValue::Assign
            | TokenValue::Colon
            | TokenValue::Comma
            | TokenValue::Semicolon
            | TokenValue::QuestionMark
            | TokenValue::Exclamation
            | TokenValue::CaseRocket
            | TokenValue::VerticalPipe
            | TokenValue::CloseParen
            | TokenValue::CloseBracket
            | TokenValue::CloseSquare
            | TokenValue::Let
            | TokenValue::Const
            | TokenValue::Borrow
            | TokenValue::Function
            | TokenValue::Gen
            | TokenValue::Import
            | TokenValue::Struct
            | TokenValue::Union
            | TokenValue::Return
            | TokenValue::Extern
            | TokenValue::Interface
            | TokenValue::Void
            | TokenValue::LineComment(_) => true,
        }
    }
}

/// Where the lexer stands: how many characters it has taken, and the line
/// and offset of the last one.
pub struct LexState {
    pub pos: int,
    pub line: int,
    pub offset: int,
}

/// A line and an offset.
pub struct Place {
    pub line: int,
    pub offset: int,
}

/// What a token holds: a value that holds no text, or the text of a word,
/// of a string literal or of a comment.
pub enum TokenModel {
    Plain(TokenValue),
    Word(Seq<char>),
    Text(Seq<char>),
    Comment(Seq<char>),
}

/// What one step of the lexer gives: a token with the places of its first
/// and last character, or an error with its place.
pub enum ItemModel {
    Token(TokenModel, Place, Place),
    UnexpectedStart(char, Place),
    IllegalNullByte(Place),
    UnterminatedLiteral(Place),
    IllegalEscapeSequence(Place),
}

pub open spec fn place(st: LexState) -> Place {
    Place { line: st.line, offset: st.offset }
}

/// The first position from `pos` on that holds no line break.
pub open spec fn skip_breaks(src: Seq<char>, pos: int) -> int
    decreases src.len() - pos,
{
    if 0 <= pos < src.len() && src[pos] == '\n' {
        skip_breaks(src, pos + 1)
    } else {
        pos
    }
}

/// The state after the line breaks at hand are passed: each starts a new
/// line, at offset 0.
pub open spec fn after_breaks(src: Seq<char>, st: LexState) -> LexState {
    let q = skip_breaks(src, st.pos);
    LexState {
        pos: q,
        line: st.line + (q - st.pos),
        offset: if q > st.pos {
            0
        } else {
            st.offset
        },
    }
}

/// The next character that is no line break, if the text has one, and the
/// state after it is taken; its place is that of the new state.
pub open spec fn advance(src: Seq<char>, st: LexState) -> (Option<char>, LexState) {
    let a = after_breaks(src, st);
    if 0 <= a.pos < src.len() {
        (Some(src[a.pos]), LexState { pos: a.pos + 1, line: a.line, offset: a.offset + 1 })
    } else {
        (None, a)
    }
}

/// The state after `n` more characters of the line are taken.
pub open spec fn along(st: LexState, n: int) -> LexState {
    LexState { pos: st.pos + n, line: st.line, offset: st.offset + n }
}

pub open spec fn is_letter(c: char) -> bool {
    ('a' <= c && c <= 'z') || ('A' <= c && c <= 'Z') || c == '_'
}

pub open spec fn is_digit(c: char) -> bool {
    '0' <= c && c <= '9'
}

/// White space as Unicode defines it.
pub open spec fn is_white_space(c: char) -> bool {
    let n = c as u32;
    (0x09 <= n && n <= 0x0d) || n == 0x20 || n == 0x85 || n == 0xa0 || n == 0x1680 || (0x2000 <= n
        && n <= 0x200a) || n == 0x2028 || n == 0x2029 || n == 0x202f || n == 0x205f || n
        == 0x3000
}

/// Where the run of letters and digits that holds `i` ends.
pub open spec fn word_end(src: Seq<char>, i: int) -> int
    decreases src.len() - i,
{
    if 0 <= i < src.len() && (is_letter(src[i]) || is_digit(src[i])) {
        word_end(src, i + 1)
    } else {
        i
    }
}

/// Where the run of digits and underscores that holds `i` ends.
pub open spec fn number_end(src: Seq<char>, i: int) -> int
    decreases src.len() - i,
{
    if 0 <= i < src.len() && (is_digit(src[i]) || src[i] == '_') {
        number_end(src, i + 1)
    } else {
        i
    }
}

/// Where the line that holds `i` ends: at its line break, or at the end
/// of the text.
pub open spec fn line_end(src: Seq<char>, i: int) -> int
    decreases src.len() - i,
{
    if 0 <= i < src.len() && src[i] != '\n' {
        line_end(src, i + 1)
    } else {
        i
    }
}

pub open spec fn digit_value(c: char) -> int {
    c as u32 - '0' as u32
}

/// The number so far with one more decimal digit, within 64 bits.
pub open spec fn with_digit(number: u64, c: char) -> u64 {
    ((number * 10 + digit_value(c)) % 0x1_0000_0000_0000_0000) as u64
}

/// The number that the digits from `i` to `e` make of `number`;
/// underscores count for nothing.
pub open spec fn number_value(src: Seq<char>, i: int, e: int, number: u64) -> u64
    decreases e - i,
{
    if i >= e || i < 0 || i >= src.len() {
        number
    } else {
        number_value(
            src,
            i + 1,
            e,
            if src[i] == '_' {
                number
            } else {
                with_digit(number, src[i])
            },
        )
    }
}

/// The token that a word stands for: the keyword that it spells, else the
/// word itself.
pub open spec fn word_model(text: Seq<char>) -> TokenModel {
    if text == "if"@ {
        TokenModel::Plain(TokenValue::If)
    } else if text == "while"@ {
        TokenModel::Plain(TokenValue::While)
    } else if text == "loop"@ {
        TokenModel::Plain(TokenValue::Loop)
    } else if text == "true"@ {
        TokenModel::Plain(TokenValue::True)
    } else if text == "false"@ {
        TokenModel::Plain(TokenValue::False)
    } else if text == "let"@ {
        TokenModel::Plain(TokenValue::Let)
    } else if text == "const"@ {
        TokenModel::Plain(TokenValue::Const)
    } else if text == "borrow"@ {
        TokenModel::Plain(TokenValue::Borrow)
    } else if text == "fn"@ {
        TokenModel::Plain(TokenValue::Function)
    } else if text == "gen"@ {
        TokenModel::Plain(TokenValue::Gen)
    } else if text == "import"@ {
        TokenModel::Plain(TokenValue::Import)
    } else if text == "struct"@ {
        TokenModel::Plain(TokenValue::Struct)
    } else if text == "union"@ {
        TokenModel::Plain(TokenValue::Union)
    } else if text == "unique"@ {
        TokenModel::Plain(TokenValue::Unique)
    } else if text == "ref"@ {
        TokenModel::Plain(TokenValue::Ref)
    } else if text == "return"@ {
        TokenModel::Plain(TokenValue::Return)
    } else if text == "extern"@ {
        TokenModel::Plain(TokenValue::Extern)
    } else if text == "null"@ {
        TokenModel::Plain(TokenValue::Null)
    } else if text == "dict"@ {
        TokenModel::Plain(TokenValue::Dict)
    } else if text == "list"@ {
        TokenModel::Plain(TokenValue::List)
    } else if text == "rc"@ {
        TokenModel::Plain(TokenValue::Rc)
    } else if text == "cell"@ {
        TokenModel::Plain(TokenValue::Cell)
    } else if text == "interface"@ {
        TokenModel::Plain(TokenValue::Interface)
    } else if text == "and"@ {
        TokenModel::Plain(TokenValue::BooleanAnd)
    } else if text == "or"@ {
        TokenModel::Plain(TokenValue::BooleanOr)
    } else if text == "yield"@ {
        TokenModel::Plain(TokenValue::Yield)
    } else if text == "void"@ {
        TokenModel::Plain(TokenValue::Void)
    } else if text == "case"@ {
        TokenModel::Plain(TokenValue::Case)
    } else if text == "self"@ {
        TokenModel::Plain(TokenValue::SelfKeyword)
    } else {
        TokenModel::Word(text)
    }
}

/// The character that an escape stands for, if `c` after a backslash is
/// one.
pub open spec fn unescaped(c: char) -> Option<char> {
    if c == 'n' {
        Some('\n')
    } else if c == 'r' {
        Some('\r')
    } else if c == 't' {
        Some('\t')
    } else if c == '\\' {
        Some('\\')
    } else if c == '0' {
        Some('\0')
    } else if c == '\'' {
        Some('\'')
    } else if c == '"' {
        Some('"')
    } else {
        None
    }
}

/// One character of a literal: itself, or what its escape stands for,
/// with the place of its last character; or the error met. Line breaks
/// are passed over. `start` is where the literal began.
pub open spec fn literal_char(src: Seq<char>, st: LexState, start: Place) -> (
    Result<(char, Place), ItemModel>,
    LexState,
) {
    match advance(src, st) {
        (None, s1) => (Err(ItemModel::UnterminatedLiteral(start)), s1),
        (Some(c), s1) => if c == '\\' {
            match advance(src, s1) {
                (None, s2) => (Err(ItemModel::UnterminatedLiteral(place(s1))), s2),
                (Some(e), s2) => match unescaped(e) {
                    Some(v) => (Ok((v, place(s2))), s2),
                    None => (Err(ItemModel::IllegalEscapeSequence(place(s1))), s2),
                },
            }
        } else {
            (Ok((c, place(s1))), s1)
        },
    }
}

/// The rest of a string literal of which `text` has been read: up to
/// the first character that is, or by its escape stands for, a double
/// quote.
pub open spec fn string_rest(src: Seq<char>, st: LexState, start: Place, text: Seq<char>) -> (
    ItemModel,
    LexState,
)
    decreases src.len() - st.pos,
{
    match literal_char(src, st, start) {
        (Err(e), s1) => (e, s1),
        (Ok((c, end)), s1) => if c == '"' || s1.pos <= st.pos || s1.pos > src.len() {
            (ItemModel::Token(TokenModel::Text(text), start, end), s1)
        } else {
            string_rest(src, s1, start, text.push(c))
        },
    }
}

/// The token that begins with `c`, which is no white space, and the
/// state after it. `s1` is the state after `c` was taken.
pub open spec fn token_from(src: Seq<char>, c: char, s1: LexState) -> (ItemModel, LexState) {
    let start = place(s1);
    let next = if 0 <= s1.pos < src.len() {
        Some(src[s1.pos])
    } else {
        None
    };
    let one = |v: TokenValue| (ItemModel::Token(TokenModel::Plain(v), start, start), s1);
    let two = |v: TokenValue|
        (ItemModel::Token(TokenModel::Plain(v), start, place(along(s1, 1))), along(s1, 1));
    if is_letter(c) {
        let e = word_end(src, s1.pos);
        let s2 = along(s1, e - s1.pos);
        (ItemModel::Token(word_model(src.subrange(s1.pos - 1, e)), start, place(s2)), s2)
    } else if is_digit(c) {
        let e = number_end(src, s1.pos);
        let s2 = along(s1, e - s1.pos);
        (
            ItemModel::Token(
                TokenModel::Plain(
                    TokenValue::Int(number_value(src, s1.pos, e, digit_value(c) as u64)),
                ),
                start,
                place(s2),
            ),
            s2,
        )
    } else if c == '!' {
        if next == Some('=') {
            two(TokenValue::NotEquals)
        } else {
            one(TokenValue::Exclamation)
        }
    } else if c == '?' {
        if next == Some('?') {
            two(TokenValue::NullCoalesce)
        } else if next == Some('.') {
            two(TokenValue::NullChaining)
        } else {
            one(TokenValue::QuestionMark)
        }
    } else if c == '=' {
        if next == Some('=') {
            two(TokenValue::EqualTo)
        } else if next == Some('>') {
            two(TokenValue::CaseRocket)
        } else {
            one(TokenValue::Assign)
        }
    } else if c == '<' {
        if next == Some('=') {
            two(TokenValue::LessEqualThan)
        } else {
            one(TokenValue::LessThan)
        }
    } else if c == '>' {
        if next == Some('=') {
            two(TokenValue::GreaterEqualThan)
        } else {
            one(TokenValue::GreaterThan)
        }
    } else if c == '+' {
        if next == Some('=') {
            two(TokenValue::PlusEquals)
        } else if next == Some('+') {
            two(TokenValue::Concat)
        } else {
            one(TokenValue::Plus)
        }
    } else if c == '-' {
        if next == Some('=') {
            two(TokenValue::MinusEquals)
        } else {
            one(TokenValue::Minus)
        }
    } else if c == '*' {
        if next == Some('=') {
            two(TokenValue::AsteriskEquals)
        } else {
            one(TokenValue::Asterisk)
        }
    } else if c == '/' {
        if next == Some('=') {
            two(TokenValue::ForwardSlashEquals)
        } else if next == Some('/') {
            // The comment begins at the second slash and takes the rest
            // of the line; the line break after it is passed.
            let e = line_end(src, s1.pos);
            let s2 = along(s1, e - s1.pos);
            (
                ItemModel::Token(TokenModel::Comment(src.subrange(s1.pos, e)), start, place(s2)),
                LexState {
                    pos: if e < src.len() {
                        e + 1
                    } else {
                        e
                    },
                    line: s1.line + 1,
                    offset: 0,
                },
            )
        } else {
            one(TokenValue::ForwardSlash)
        }
    } else if c == ',' {
        one(TokenValue::Comma)
    } else if c == ';' {
        one(TokenValue::Semicolon)
    } else if c == ':' {
        one(TokenValue::Colon)
    } else if c == '.' {
        one(TokenValue::Period)
    } else if c == '(' {
        one(TokenValue::OpenParen)
    } else if c == ')' {
        one(TokenValue::CloseParen)
    } else if c == '{' {
        one(TokenValue::OpenBracket)
    } else if c == '}' {
        one(TokenValue::CloseBracket)
    } else if c == '[' {
        one(TokenValue::OpenSquare)
    } else if c == ']' {
        one(TokenValue::CloseSquare)
    } else if c == '|' {
        one(TokenValue::VerticalPipe)
    } else if c == '\0' {
        (ItemModel::IllegalNullByte(start), s1)
    } else if c == '\'' {
        match literal_char(src, s1, start) {
            (Err(e), s2) => (e, s2),
            (Ok((v, end)), s2) => match advance(src, s2) {
                (Some(close), s3) => if close == '\'' {
                    (
                        ItemModel::Token(
                            TokenModel::Plain(TokenValue::CharacterLiteral(v)),
                            start,
                            place(s3),
                        ),
                        s3,
                    )
                } else {
                    (ItemModel::UnterminatedLiteral(end), s3)
                },
                (None, s3) => (ItemModel::UnterminatedLiteral(end), s3),
            },
        }
    } else if c == '"' {
        string_rest(src, s1, start, Seq::empty())
    } else {
        (ItemModel::UnexpectedStart(c, start), s1)
    }
}

/// One step of the lexer from the state `st`: white space and line
/// breaks are passed over; then comes a token or an error, and the state
/// after it; nothing at the end of the text.
pub open spec fn step(src: Seq<char>, st: LexState) -> Option<(ItemModel, LexState)>
    decreases src.len() - st.pos,
{
    match advance(src, st) {
        (None, _) => None,
        (Some(c), s1) => if is_white_space(c) {
            if st.pos < s1.pos <= src.len() {
                step(src, s1)
            } else {
                None
            }
        } else {
            Some(token_from(src, c, s1))
        },
    }
}

/// Whether the token value is the one that the model describes.
pub open spec fn value_matches(value: TokenValue, model: TokenModel) -> bool {
    match model {
        TokenModel::Plain(v) => value == v,
        TokenModel::Word(text) => value matches TokenValue::Word(s) && s@ == text,
        TokenModel::Text(text) => value matches TokenValue::StringLiteral(s) && s@ == text,
        TokenModel::Comment(text) => value matches TokenValue::LineComment(s) && s@ == text,
    }
}

/// Whether the marker names the place in the source called `name`.
pub open spec fn marker_at(marker: SourceMarker, name: Seq<char>, place: Place) -> bool {
    marker.source_name@ == name && marker.line == place.line && marker.offset == place.offset
}

/// Whether the range runs from `start` to `end` in the source called
/// `name`.
pub open spec fn range_between(range: SourceRange, name: Seq<char>, start: Place, end: Place) -> bool {
    &&& range.source_name@ == name
    &&& range.start_line == start.line
    &&& range.start_offset == start.offset
    &&& range.end_line == end.line
    &&& range.end_offset == end.offset
}

/// Whether the lexer's item is the one that the model describes.
pub open spec fn item_matches(item: Result<Token, LexError>, model: ItemModel, name: Seq<char>) -> bool {
    match model {
        ItemModel::Token(value, start, end) => item matches Ok(token) && value_matches(
            token.value,
            value,
        ) && range_between(token.range, name, start, end),
        ItemModel::UnexpectedStart(c, at) => item matches Err(LexError::UnexpectedStart(found, m))
            && found == c && marker_at(m, name, at),
        ItemModel::IllegalNullByte(at) => item matches Err(LexError::IllegalNullByte(m))
            && marker_at(m, name, at),
        ItemModel::UnterminatedLiteral(at) => item matches Err(LexError::UnterminatedLiteral(m))
            && marker_at(m, name, at),
        ItemModel::IllegalEscapeSequence(at) => item matches Err(
            LexError::IllegalEscapeSequence(m),
        ) && marker_at(m, name, at),
    }
}

/// A line and an offset, as the lexer counts them.
#[derive(Clone, Copy, Debug, PartialEq, Eq, Structural)]
pub struct Position {
    pub line: u32,
    pub offset: u32,
}

impl Position {
    pub open spec fn place(self) -> Place {
        Place { line: self.line as int, offset: self.offset as int }
    }
}

/// The characters of a string slice, in order.
fn chars_of(text: &str) -> (r: Vec<char>)
    ensures
        r@ == text@,
{
    let mut out: Vec<char> = Vec::new();
    for c in it: text.chars()
        invariant
            it.seq() == text@,
            out@ == it.seq().subrange(0, it.index() as int),
    {
        out.push(c);
        assert(out@ =~= it.seq().subrange(0, it.index() + 1));
    }
    assert(out@ =~= text@);
    out
}

/// The string made of the given characters, in order.
///
/// Rests on `String::from_iter` of the standard library, which makes a
/// string of the characters that an iterator gives, one after the
/// other: the string holds the characters of the vector, first to last.
#[verifier::external_body]
fn string_of(chars: &Vec<char>) -> (r: String)
    ensures
        r@ == chars@,
{
    String::from_iter(chars)
}

/// Whether the characters spell the given word.
fn spells(chars: &Vec<char>, word: &str) -> (r: bool)
    ensures
        r == (chars@ == word@),
{
    let n = word.unicode_len();
    if chars.len() != n {
        return false;
    }
    let mut i: usize = 0;
    while i < n
        invariant
            0 <= i <= n,
            n == word@.len(),
            n == chars@.len(),
            forall|k: int| 0 <= k < i ==> chars@[k] == word@[k],
        decreases n - i,
    {
        if chars[i] != word.get_char(i) {
            return false;
        }
        i = i + 1;
    }
    assert(chars@ =~= word@);
    true
}

fn letter(c: char) -> (r: bool)
    ensures
        r == is_letter(c),
{
    ('a' <= c && c <= 'z') || ('A' <= c && c <= 'Z') || c == '_'
}

fn digit(c: char) -> (r: bool)
    ensures
        r == is_digit(c),
{
    '0' <= c && c <= '9'
}

fn white_space(c: char) -> (r: bool)
    ensures
        r == is_white_space(c),
{
    let n: u32 = c as u32;
    (0x09 <= n && n <= 0x0d) || n == 0x20 || n == 0x85 || n == 0xa0 || n == 0x1680 || (0x2000 <= n
        && n <= 0x200a) || n == 0x2028 || n == 0x2029 || n == 0x202f || n == 0x205f || n
        == 0x3000
}

fn unescape(c: char) -> (r: Option<char>)
    ensures
        r == unescaped(c),
{
    if c == 'n' {
        Some('\n')
    } else if c == 'r' {
        Some('\r')
    } else if c == 't' {
        Some('\t')
    } else if c == '\\' {
        Some('\\')
    } else if c == '0' {
        Some('\0')
    } else if c == '\'' {
        Some('\'')
    } else if c == '"' {
        Some('"')
    } else {
        None
    }
}

/// The token that a word stands for.
fn word_token(word: &Vec<char>) -> (r: TokenValue)
    ensures
        value_matches(r, word_model(word@)),
{
    if spells(word, "if") {
        TokenValue::If
    } else if spells(word, "while") {
        TokenValue::While
    } else if spells(word, "loop") {
        TokenValue::Loop
    } else if spells(word, "true") {
        TokenValue::True
    } else if spells(word, "false") {
        TokenValue::False
    } else if spells(word, "let") {
        TokenValue::Let
    } else if spells(word, "const") {
        TokenValue::Const
    } else if spells(word, "borrow") {
        TokenValue::Borrow
    } else if spells(word, "fn") {
        TokenValue::Function
    } else if spells(word, "gen") {
        TokenValue::Gen
    } else if spells(word, "import") {
        TokenValue::Import
    } else if spells(word, "struct") {
        TokenValue::Struct
    } else if spells(word, "union") {
        TokenValue::Union
    } else if spells(word, "unique") {
        TokenValue::Unique
    } else if spells(word, "ref") {
        TokenValue::Ref
    } else if spells(word, "return") {
        TokenValue::Return
    } else if spells(word, "extern") {
        TokenValue::Extern
    } else if spells(word, "null") {
        TokenValue::Null
    } else if spells(word, "dict") {
        TokenValue::Dict
    } else if spells(word, "list") {
        TokenValue::List
    } else if spells(word, "rc") {
        TokenValue::Rc
    } else if spells(word, "cell") {
        TokenValue::Cell
    } else if spells(word, "interface") {
        TokenValue::Interface
    } else if spells(word, "and") {
        TokenValue::BooleanAnd
    } else if spells(word, "or") {
        TokenValue::BooleanOr
    } else if spells(word, "yield") {
        TokenValue::Yield
    } else if spells(word, "void") {
        TokenValue::Void
    } else if spells(word, "case") {
        TokenValue::Case
    } else if spells(word, "self") {
        TokenValue::SelfKeyword
    } else {
        TokenValue::Word(string_of(word))
    }
}

/// The lexer at work on one text.
pub struct TokenIterator {
    pub source: Vec<char>,
    pub source_name: String,
    pub pos: usize,
    pub line: u32,
    pub offset: u32,
}

impl TokenIterator {
    pub open spec fn state(&self) -> LexState {
        LexState { pos: self.pos as int, line: self.line as int, offset: self.offset as int }
    }

    /// The lexer has not run past the text, and its line and offset
    /// count no more characters than it has taken.
    pub open spec fn wf(&self) -> bool {
        &&& self.pos <= self.source@.len()
        &&& self.source@.len() < u32::MAX
        &&& self.line >= 1
        &&& self.line - 1 + self.offset <= self.pos
    }

    /// The lexer at the start of a text.
    pub fn new(source_name: String, source: Vec<char>) -> (it: TokenIterator)
        requires
            source@.len() < u32::MAX,
        ensures
            it.wf(),
            it.source == source,
            it.source_name == source_name,
            it.state() == (LexState { pos: 0, line: 1, offset: 0 }),
    {
        TokenIterator { source, source_name, pos: 0, line: 1, offset: 0 }
    }

    fn here(&self) -> (p: Position)
        ensures
            p.place() == place(self.state()),
    {
        Position { line: self.line, offset: self.offset }
    }

    fn marker(&self, at: Position) -> (m: SourceMarker)
        ensures
            marker_at(m, self.source_name@, at.place()),
    {
        SourceMarker::new(self.source_name.clone(), at.line, at.offset)
    }

    fn token(&self, value: TokenValue, start: Position, end: Position) -> (t: Result<
        Token,
        LexError,
    >)
        ensures
            t matches Ok(token) && token.value == value && range_between(
                token.range,
                self.source_name@,
                start.place(),
                end.place(),
            ),
    {
        Ok(
            Token {
                value,
                range: SourceRange::new_offset(self.marker(start), end.line, end.offset),
            },
        )
    }

    /// The character at hand, line break or not, without taking it.
    fn front(&self) -> (r: Option<char>)
        requires
            self.wf(),
        ensures
            r == if self.pos < self.source@.len() {
                Some(self.source@[self.pos as int])
            } else {
                None
            },
    {
        if self.pos < self.source.len() {
            Some(self.source[self.pos])
        } else {
            None
        }
    }

    /// Takes the character at hand, which is on the line.
    fn take(&mut self)
        requires
            old(self).wf(),
            old(self).pos < old(self).source@.len(),
        ensures
            final(self).wf(),
            final(self).source == old(self).source,
            final(self).source_name == old(self).source_name,
            final(self).state() == along(old(self).state(), 1),
    {
        self.pos = self.pos + 1;
        self.offset = self.offset + 1;
    }

    /// Takes the next character that is no line break; see `advance`.
    fn next_char(&mut self) -> (r: Option<char>)
        requires
            old(self).wf(),
        ensures
            final(self).wf(),
            final(self).source == old(self).source,
            final(self).source_name == old(self).source_name,
            (r, final(self).state()) == advance(old(self).source@, old(self).state()),
            r.is_some() ==> final(self).pos > old(self).pos,
            final(self).pos >= old(self).pos,
    {
        let ghost first = self.state();
        while self.pos < self.source.len() && self.source[self.pos] == '\n'
            invariant
                self.wf(),
                self.source == old(self).source,
                self.source_name == old(self).source_name,
                first == old(self).state(),
                first.pos <= self.pos,
                skip_breaks(self.source@, self.pos as int) == skip_breaks(self.source@, first.pos),
                self.line == first.line + (self.pos - first.pos),
                self.offset == if self.pos > first.pos {
                    0
                } else {
                    first.offset
                },
            decreases self.source@.len() - self.pos,
        {
            self.line = self.line + 1;
            self.offset = 0;
            self.pos = self.pos + 1;
        }
        if self.pos < self.source.len() {
            let c = self.source[self.pos];
            self.pos = self.pos + 1;
            self.offset = self.offset + 1;
            Some(c)
        } else {
            None
        }
    }

    /// Takes one character of a literal; see `literal_char`.
    fn next_char_literal(&mut self, start: Position) -> (r: Result<(char, Position), LexError>)
        requires
            old(self).wf(),
        ensures
            final(self).wf(),
            final(self).source == old(self).source,
            final(self).source_name == old(self).source_name,
            final(self).pos >= old(self).pos,
            r.is_ok() ==> final(self).pos > old(self).pos,
            final(self).state() == literal_char(
                old(self).source@,
                old(self).state(),
                start.place(),
            ).1,
            match literal_char(old(self).source@, old(self).state(), start.place()).0 {
                Ok((c, end)) => r matches Ok((found, at)) && found == c && at.place() == end,
                Err(e) => r.is_err() && item_matches(
                    Err(r->Err_0),
                    e,
                    old(self).source_name@,
                ),
            },
    {
        match self.next_char() {
            None => Err(LexError::UnterminatedLiteral(self.marker(start))),
            Some(c) => {
                let cursor = self.here();
                if c == '\\' {
                    match self.next_char() {
                        None => Err(LexError::UnterminatedLiteral(self.marker(cursor))),
                        Some(e) => match unescape(e) {
                            Some(v) => Ok((v, self.here())),
                            None => Err(LexError::IllegalEscapeSequence(self.marker(cursor))),
                        },
                    }
                } else {
                    Ok((c, cursor))
                }
            },
        }
    }
}

/// A run ends no earlier than it begins, and within the text.
pub proof fn lemma_run_ends(src: Seq<char>, i: int)
    requires
        0 <= i <= src.len(),
    ensures
        i <= word_end(src, i) <= src.len(),
        i <= number_end(src, i) <= src.len(),
        i <= line_end(src, i) <= src.len(),
    decreases src.len() - i,
{
    if i < src.len() {
        lemma_run_ends(src, i + 1);
    }
}

impl TokenIterator {
    /// Takes the character at hand and gives the token of two characters
    /// that ends with it.
    fn pair(&mut self, value: TokenValue, start: Position) -> (r: Result<Token, LexError>)
        requires
            old(self).wf(),
            old(self).pos < old(self).source@.len(),
        ensures
            final(self).wf(),
            final(self).source == old(self).source,
            final(self).source_name == old(self).source_name,
            final(self).state() == along(old(self).state(), 1),
            r matches Ok(token) && token.value == value && range_between(
                token.range,
                old(self).source_name@,
                start.place(),
                place(along(old(self).state(), 1)),
            ),
    {
        self.take();
        let end = self.here();
        self.token(value, start, end)
    }

    /// Reads the word whose first letter `c` has been taken.
    fn word(&mut self, c: char, start: Position) -> (r: Result<Token, LexError>)
        requires
            old(self).wf(),
            old(self).pos >= 1,
            old(self).source@[old(self).pos - 1] == c,
        ensures
            final(self).wf(),
            final(self).source == old(self).source,
            final(self).source_name == old(self).source_name,
            final(self).state() == along(
                old(self).state(),
                word_end(old(self).source@, old(self).pos as int) - old(self).pos,
            ),
            r matches Ok(token) && value_matches(
                token.value,
                word_model(
                    old(self).source@.subrange(
                        old(self).pos - 1,
                        word_end(old(self).source@, old(self).pos as int),
                    ),
                ),
            ) && range_between(
                token.range,
                old(self).source_name@,
                start.place(),
                place(final(self).state()),
            ),
    {
        let ghost s1 = self.state();
        let ghost src = self.source@;
        let mut word: Vec<char> = Vec::new();
        word.push(c);
        assert(word@ =~= src.subrange(s1.pos - 1, s1.pos));
        while self.pos < self.source.len() && (letter(self.source[self.pos]) || digit(
            self.source[self.pos],
        ))
            invariant
                self.wf(),
                self.source == old(self).source,
                self.source_name == old(self).source_name,
                src == self.source@,
                s1 == old(self).state(),
                1 <= s1.pos <= self.pos,
                self.state() == along(s1, self.pos - s1.pos),
                word_end(src, self.pos as int) == word_end(src, s1.pos),
                word@ == src.subrange(s1.pos - 1, self.pos as int),
            decreases self.source@.len() - self.pos,
        {
            word.push(self.source[self.pos]);
            self.take();
            assert(word@ =~= src.subrange(s1.pos - 1, self.pos as int));
        }
        let end = self.here();
        let value = word_token(&word);
        self.token(value, start, end)
    }

    /// Reads the number whose first digit `c` has been taken.
    fn number(&mut self, c: char, start: Position) -> (r: Result<Token, LexError>)
        requires
            old(self).wf(),
            is_digit(c),
        ensures
            final(self).wf(),
            final(self).source == old(self).source,
            final(self).source_name == old(self).source_name,
            final(self).state() == along(
                old(self).state(),
                number_end(old(self).source@, old(self).pos as int) - old(self).pos,
            ),
            r matches Ok(token) && token.value == TokenValue::Int(
                number_value(
                    old(self).source@,
                    old(self).pos as int,
                    number_end(old(self).source@, old(self).pos as int),
                    digit_value(c) as u64,
                ),
            ) && range_between(
                token.range,
                old(self).source_name@,
                start.place(),
                place(final(self).state()),
            ),
    {
        let ghost s1 = self.state();
        let ghost src = self.source@;
        let ghost e = number_end(src, s1.pos);
        let first: u32 = c as u32 - '0' as u32;
        let mut number: u64 = first as u64;
        proof {
            lemma_run_ends(src, s1.pos);
        }
        while self.pos < self.source.len() && (digit(self.source[self.pos]) || self.source[self.pos]
            == '_')
            invariant
                self.wf(),
                self.source == old(self).source,
                self.source_name == old(self).source_name,
                src == self.source@,
                s1 == old(self).state(),
                s1.pos <= self.pos <= e,
                e == number_end(src, s1.pos),
                self.state() == along(s1, self.pos - s1.pos),
                number_end(src, self.pos as int) == e,
                number_value(src, self.pos as int, e, number) == number_value(
                    src,
                    s1.pos,
                    e,
                    digit_value(c) as u64,
                ),
            decreases self.source@.len() - self.pos,
        {
            let d = self.source[self.pos];
            proof {
                lemma_run_ends(src, self.pos + 1);
            }
            if d != '_' {
                let value: u32 = d as u32 - '0' as u32;
                let wide: u128 = (number as u128 * 10 + value as u128) % 0x1_0000_0000_0000_0000u128;
                number = wide as u64;
            }
            self.take();
        }
        let end = self.here();
        self.token(TokenValue::Int(number), start, end)
    }

    /// Reads the comment whose first slash has been taken: the rest of
    /// the line, from the second slash on.
    fn comment(&mut self, start: Position) -> (r: Result<Token, LexError>)
        requires
            old(self).wf(),
            old(self).pos >= 1,
            old(self).offset >= 1,
            old(self).pos < old(self).source@.len(),
            old(self).source@[old(self).pos as int] == '/',
        ensures
            final(self).wf(),
            final(self).source == old(self).source,
            final(self).source_name == old(self).source_name,
            final(self).state() == token_from(old(self).source@, '/', old(self).state()).1,
            item_matches(
                r,
                ItemModel::Token(
                    TokenModel::Comment(
                        old(self).source@.subrange(
                            old(self).pos as int,
                            line_end(old(self).source@, old(self).pos as int),
                        ),
                    ),
                    start.place(),
                    place(
                        along(
                            old(self).state(),
                            line_end(old(self).source@, old(self).pos as int) - old(self).pos,
                        ),
                    ),
                ),
                old(self).source_name@,
            ),
    {
        let ghost s1 = self.state();
        let ghost src = self.source@;
        let mut text: Vec<char> = Vec::new();
        assert(text@ =~= src.subrange(s1.pos, s1.pos));
        while self.pos < self.source.len() && self.source[self.pos] != '\n'
            invariant
                self.wf(),
                self.source == old(self).source,
                self.source_name == old(self).source_name,
                src == self.source@,
                s1 == old(self).state(),
                s1.pos <= self.pos,
                s1.offset >= 1,
                self.state() == along(s1, self.pos - s1.pos),
                line_end(src, self.pos as int) == line_end(src, s1.pos),
                text@ == src.subrange(s1.pos, self.pos as int),
            decreases self.source@.len() - self.pos,
        {
            text.push(self.source[self.pos]);
            self.take();
            assert(text@ =~= src.subrange(s1.pos, self.pos as int));
        }
        let end = self.here();
        if self.pos < self.source.len() {
            self.pos = self.pos + 1;
        }
        self.line = self.line + 1;
        self.offset = 0;
        self.token(TokenValue::LineComment(string_of(&text)), start, end)
    }

    /// Reads the character literal whose opening quote has been taken.
    fn character(&mut self, start: Position) -> (r: Result<Token, LexError>)
        requires
            old(self).wf(),
            start.place() == place(old(self).state()),
        ensures
            final(self).wf(),
            final(self).source == old(self).source,
            final(self).source_name == old(self).source_name,
            final(self).pos >= old(self).pos,
            final(self).state() == token_from(old(self).source@, '\'', old(self).state()).1,
            item_matches(
                r,
                token_from(old(self).source@, '\'', old(self).state()).0,
                old(self).source_name@,
            ),
    {
        match self.next_char_literal(start) {
            Err(e) => Err(e),
            Ok((v, end)) => match self.next_char() {
                Some(close) => {
                    if close == '\'' {
                        let at = self.here();
                        self.token(TokenValue::CharacterLiteral(v), start, at)
                    } else {
                        Err(LexError::UnterminatedLiteral(self.marker(end)))
                    }
                },
                None => Err(LexError::UnterminatedLiteral(self.marker(end))),
            },
        }
    }

    /// Reads the string literal whose opening quote has been taken.
    fn string(&mut self, start: Position) -> (r: Result<Token, LexError>)
        requires
            old(self).wf(),
        ensures
            final(self).wf(),
            final(self).source == old(self).source,
            final(self).source_name == old(self).source_name,
            final(self).pos >= old(self).pos,
            final(self).state() == string_rest(
                old(self).source@,
                old(self).state(),
                start.place(),
                Seq::empty(),
            ).1,
            item_matches(
                r,
                string_rest(old(self).source@, old(self).state(), start.place(), Seq::empty()).0,
                old(self).source_name@,
            ),
    {
        let ghost s1 = self.state();
        let ghost src = self.source@;
        let mut text: Vec<char> = Vec::new();
        loop
            invariant
                self.wf(),
                self.source == old(self).source,
                self.source_name == old(self).source_name,
                src == self.source@,
                s1 == old(self).state(),
                self.pos >= s1.pos,
                string_rest(src, self.state(), start.place(), text@) == string_rest(
                    src,
                    s1,
                    start.place(),
                    Seq::empty(),
                ),
            decreases self.source@.len() - self.pos,
        {
            match self.next_char_literal(start) {
                Err(e) => {
                    return Err(e);
                },
                Ok((c, end)) => {
                    if c == '"' {
                        return self.token(TokenValue::StringLiteral(string_of(&text)), start, end);
                    }
                    text.push(c);
                },
            }
        }
    }

    /// Reads the token that begins with `c`, which has been taken and is
    /// no white space; see `token_from`.
    fn token_from(&mut self, c: char) -> (r: Result<Token, LexError>)
        requires
            old(self).wf(),
            old(self).pos >= 1,
            old(self).offset >= 1,
            old(self).source@[old(self).pos - 1] == c,
        ensures
            final(self).wf(),
            final(self).source == old(self).source,
            final(self).source_name == old(self).source_name,
            final(self).pos >= old(self).pos,
            final(self).state() == token_from(old(self).source@, c, old(self).state()).1,
            item_matches(
                r,
                token_from(old(self).source@, c, old(self).state()).0,
                old(self).source_name@,
            ),
    {
        let start = self.here();
        let next = self.front();
        proof {
            lemma_run_ends(self.source@, self.pos as int);
        }
        if letter(c) {
            self.word(c, start)
        } else if digit(c) {
            self.number(c, start)
        } else if c == '!' {
            if next == Some('=') {
                self.pair(TokenValue::NotEquals, start)
            } else {
                self.token(TokenValue::Exclamation, start, start)
            }
        } else if c == '?' {
            if next == Some('?') {
                self.pair(TokenValue::NullCoalesce, start)
            } else if next == Some('.') {
                self.pair(TokenValue::NullChaining, start)
            } else {
                self.token(TokenValue::QuestionMark, start, start)
            }
        } else if c == '=' {
            if next == Some('=') {
                self.pair(TokenValue::EqualTo, start)
            } else if next == Some('>') {
                self.pair(TokenValue::CaseRocket, start)
            } else {
                self.token(TokenValue::Assign, start, start)
            }
        } else if c == '<' {
            if next == Some('=') {
                self.pair(TokenValue::LessEqualThan, start)
            } else {
                self.token(TokenValue::LessThan, start, start)
            }
        } else if c == '>' {
            if next == Some('=') {
                self.pair(TokenValue::GreaterEqualThan, start)
            } else {
                self.token(TokenValue::GreaterThan, start, start)
            }
        } else if c == '+' {
            if next == Some('=') {
                self.pair(TokenValue::PlusEquals, start)
            } else if next == Some('+') {
                self.pair(TokenValue::Concat, start)
            } else {
                self.token(TokenValue::Plus, start, start)
            }
        } else if c == '-' {
            if next == Some('=') {
                self.pair(TokenValue::MinusEquals, start)
            } else {
                self.token(TokenValue::Minus, start, start)
            }
        } else if c == '*' {
            if next == Some('=') {
                self.pair(TokenValue::AsteriskEquals, start)
            } else {
                self.token(TokenValue::Asterisk, start, start)
            }
        } else if c == '/' {
            if next == Some('=') {
                self.pair(TokenValue::ForwardSlashEquals, start)
            } else if next == Some('/') {
                self.comment(start)
            } else {
                self.token(TokenValue::ForwardSlash, start, start)
            }
        } else if c == ',' {
            self.token(TokenValue::Comma, start, start)
        } else if c == ';' {
            self.token(TokenValue::Semicolon, start, start)
        } else if c == ':' {
            self.token(TokenValue::Colon, start, start)
        } else if c == '.' {
            self.token(TokenValue::Period, start, start)
        } else if c == '(' {
            self.token(TokenValue::OpenParen, start, start)
        } else if c == ')' {
            self.token(TokenValue::CloseParen, start, start)
        } else if c == '{' {
            self.token(TokenValue::OpenBracket, start, start)
        } else if c == '}' {
            self.token(TokenValue::CloseBracket, start, start)
        } else if c == '[' {
            self.token(TokenValue::OpenSquare, start, start)
        } else if c == ']' {
            self.token(TokenValue::CloseSquare, start, start)
        } else if c == '|' {
            self.token(TokenValue::VerticalPipe, start, start)
        } else if c == '\0' {
            Err(LexError::IllegalNullByte(self.marker(start)))
        } else if c == '\'' {
            self.character(start)
        } else if c == '"' {
            self.string(start)
        } else {
            Err(LexError::UnexpectedStart(c, self.marker(start)))
        }
    }

    /// The next token of the text, or the error met in reading it; `None`
    /// at the end of the text. See `step`.
    pub fn next(&mut self) -> (r: Option<Result<Token, LexError>>)
        requires
            old(self).wf(),
        ensures
            final(self).wf(),
            final(self).source == old(self).source,
            final(self).source_name == old(self).source_name,
            final(self).pos >= old(self).pos,
            r.is_some() ==> final(self).pos > old(self).pos,
            match step(old(self).source@, old(self).state()) {
                None => r.is_none(),
                Some((model, after)) => r.is_some() && item_matches(
                    r.unwrap(),
                    model,
                    old(self).source_name@,
                ) && final(self).state() == after,
            },
    {
        loop
            invariant
                self.wf(),
                self.source == old(self).source,
                self.source_name == old(self).source_name,
                self.pos >= old(self).pos,
                step(self.source@, self.state()) == step(old(self).source@, old(self).state()),
            decreases self.source@.len() - self.pos,
        {
            match self.next_char() {
                None => {
                    return None;
                },
                Some(c) => {
                    if !white_space(c) {
                        let item = self.token_from(c);
                        return Some(item);
                    }
                },
            }
        }
    }
}

/// The state of the lexer after `n` steps from `st`, if the text gives
/// that many.
pub open spec fn state_after(src: Seq<char>, st: LexState, n: nat) -> Option<LexState>
    decreases n,
{
    if n == 0 {
        Some(st)
    } else {
        match state_after(src, st, (n - 1) as nat) {
            Some(s) => match step(src, s) {
                Some((_, after)) => Some(after),
                None => None,
            },
            None => None,
        }
    }
}

/// Whether the item is what the lexer gives at its step `i` from the
/// start of the text.
pub open spec fn is_item_at(src: Seq<char>, name: Seq<char>, i: int, item: Result<Token, LexError>) -> bool {
    match state_after(src, LexState { pos: 0, line: 1, offset: 0 }, i as nat) {
        Some(s) => match step(src, s) {
            Some((model, _)) => item_matches(item, model, name),
            None => false,
        },
        None => false,
    }
}

/// Whether `items` are what the lexer gives for the text, step by step,
/// from its start to its end.
pub open spec fn lexes_to(src: Seq<char>, name: Seq<char>, items: Seq<Result<Token, LexError>>) -> bool {
    &&& forall|i: int| 0 <= i < items.len() ==> #[trigger] is_item_at(src, name, i, items[i])
    &&& match state_after(src, LexState { pos: 0, line: 1, offset: 0 }, items.len()) {
        Some(s) => step(src, s).is_none(),
        None => false,
    }
}

/// The tokens of a source text, in order, each with the range it was read
/// from. An error takes the place of a token that cannot be read, and
/// the lexer goes on after it. See `step` for the single token.
pub fn lex(source_name: &str, source_text: &str) -> (r: Vec<Result<Token, LexError>>)
    requires
        source_text@.len() < u32::MAX,
    ensures
        lexes_to(source_text@, source_name@, r@),
{
    let mut it = TokenIterator::new(String::from_str(source_name), chars_of(source_text));
    let ghost first = it.state();
    let ghost src = it.source@;
    let ghost name = it.source_name@;
    let mut items: Vec<Result<Token, LexError>> = Vec::new();
    loop
        invariant
            it.wf(),
            it.source@ == src,
            it.source_name@ == name,
            src == source_text@,
            name == source_name@,
            first == (LexState { pos: 0, line: 1, offset: 0 }),
            state_after(src, first, items@.len()) == Some(it.state()),
            forall|i: int| 0 <= i < items@.len() ==> #[trigger] is_item_at(src, name, i, items@[i]),
        decreases it.source@.len() - it.pos,
    {
        let ghost before = items@;
        let ghost here = it.state();
        match it.next() {
            None => {
                return items;
            },
            Some(item) => {
                items.push(item);
                proof {
                    assert(state_after(src, first, before.len()) == Some(here));
                    assert forall|i: int| 0 <= i < items@.len() implies #[trigger] is_item_at(
                        src,
                        name,
                        i,
                        items@[i],
                    ) by {
                        if i < before.len() {
                            assert(items@[i] == before[i]);
                            assert(is_item_at(src, name, i, before[i]));
                        }
                    }
                }
            },
        }
    }
}

} // verus!
