//! The scanner: a single left-to-right pass over the source text that
//! produces one lexeme per dispatch, proved to yield exactly the token
//! sequence (or first error) that `scan_spec::spec_scan` assigns to the
//! text.

use vstd::prelude::*;
use vstd::string::StrSliceExecFns;
use vstd::string::StringExecFns;

use crate::scan_spec::{
    comment_end, digits_end, eof_token, ident_end, is_alnum_char, is_alpha_char, is_digit_char,
    keyword_kind, lemma_scanned_nil, lemma_scanned_push, lemma_step_advances, newline_count,
    number_end, plain_token, scanned, spec_scan, spec_scan_from, spec_step, string_close,
    unterminated_message, word_kind, StepModel,
};
use crate::shrub_error::{ErrorModel, SyntaxError};
use crate::token::{
    lemma_tokens_model_empty, lemma_tokens_model_push, tokens_model, DataType, Token, TokenModel,
    TokenType, ValueModel,
};

verus! {

/// The scan cursor: transient state owned by one scan operation. `start`
/// marks the first character of the lexeme under construction and
/// `current` the next unread character, both counted in characters, not
/// bytes; `length` caches the character count of the source.
struct LexerData {
    tokens: Vec<Token>,
    current: usize,
    start: usize,
    line_number: usize,
    length: usize,
}

impl LexerData {
    /// The cursor is well formed for a source viewed as `s`.
    spec fn wf(self, s: Seq<char>) -> bool {
        &&& self.length == s.len()
        &&& self.current <= self.length
        &&& self.start <= self.current
        &&& self.line_number <= self.current
    }
}

fn is_at_end(lexer_data: &LexerData) -> (r: bool)
    ensures
        r == (lexer_data.current >= lexer_data.length),
{
    lexer_data.current >= lexer_data.length
}

fn advance(source: &str, lexer_data: &mut LexerData) -> (c: char)
    requires
        old(lexer_data).wf(source@),
        old(lexer_data).current < old(lexer_data).length,
    ensures
        final(lexer_data).wf(source@),
        c == source@[old(lexer_data).current as int],
        final(lexer_data).current == old(lexer_data).current + 1,
        final(lexer_data).tokens == old(lexer_data).tokens,
        final(lexer_data).start == old(lexer_data).start,
        final(lexer_data).line_number == old(lexer_data).line_number,
        final(lexer_data).length == old(lexer_data).length,
{
    let c = source.get_char(lexer_data.current);
    lexer_data.current = lexer_data.current + 1;
    c
}

fn peek(source: &str, lexer_data: &LexerData) -> (c: char)
    requires
        lexer_data.wf(source@),
        lexer_data.current < lexer_data.length,
    ensures
        c == source@[lexer_data.current as int],
{
    source.get_char(lexer_data.current)
}

fn peek_next(source: &str, lexer_data: &LexerData) -> (c: char)
    requires
        lexer_data.wf(source@),
        lexer_data.current + 1 < lexer_data.length,
    ensures
        c == source@[lexer_data.current as int + 1],
{
    source.get_char(lexer_data.current + 1)
}

/// One-character lookahead: consumes the next character only when it is
/// exactly `expected`.
fn char_match(expected: char, source: &str, lexer_data: &mut LexerData) -> (r: bool)
    requires
        old(lexer_data).wf(source@),
    ensures
        final(lexer_data).wf(source@),
        r == (old(lexer_data).current < old(lexer_data).length && source@[old(
            lexer_data,
        ).current as int] == expected),
        final(lexer_data).current == if r {
            old(lexer_data).current + 1
        } else {
            old(lexer_data).current as int
        },
        final(lexer_data).tokens == old(lexer_data).tokens,
        final(lexer_data).start == old(lexer_data).start,
        final(lexer_data).line_number == old(lexer_data).line_number,
        final(lexer_data).length == old(lexer_data).length,
{
    if is_at_end(lexer_data) {
        return false;
    }
    if peek(source, lexer_data) != expected {
        return false;
    }
    lexer_data.current = lexer_data.current + 1;
    true
}

fn is_alpha(character: char) -> (r: bool)
    ensures
        r == is_alpha_char(character),
{
    let u = character as u32;
    (('a' as u32) <= u && u <= ('z' as u32)) || (('A' as u32) <= u && u <= ('Z' as u32))
        || character == '_'
}

fn is_number(character: char) -> (r: bool)
    ensures
        r == is_digit_char(character),
{
    let u = character as u32;
    ('0' as u32) <= u && u <= ('9' as u32)
}

fn is_alphanumeric(character: char) -> (r: bool)
    ensures
        r == is_alnum_char(character),
{
    is_alpha(character) || is_number(character)
}

/// Character-for-character string equality.
fn str_eq(a: &str, b: &str) -> (r: bool)
    ensures
        r == (a@ == b@),
{
    let n = a.unicode_len();
    if n != b.unicode_len() {
        return false;
    }
    let mut i: usize = 0;
    while i < n
        invariant
            i <= n,
            n == a@.len(),
            n == b@.len(),
            forall|k: int| 0 <= k < i ==> a@[k] == b@[k],
        decreases n - i,
    {
        if a.get_char(i) != b.get_char(i) {
            return false;
        }
        i = i + 1;
    }
    proof {
        assert(a@ =~= b@);
    }
    true
}

/// The keyword table: a fixed, read-only mapping from reserved-word
/// spelling to token category.
fn keyword_lookup(word: &str) -> (r: Option<TokenType>)
    ensures
        r == keyword_kind(word@),
{
    if str_eq(word, "and") {
        Some(TokenType::AND)
    } else if str_eq(word, "or") {
        Some(TokenType::OR)
    } else if str_eq(word, "true") {
        Some(TokenType::TRUE)
    } else if str_eq(word, "false") {
        Some(TokenType::FALSE)
    } else if str_eq(word, "null") {
        Some(TokenType::NULL)
    } else if str_eq(word, "fn") {
        Some(TokenType::FN)
    } else if str_eq(word, "class") {
        Some(TokenType::CLASS)
    } else if str_eq(word, "output") {
        Some(TokenType::OUTPUT)
    } else if str_eq(word, "let") {
        Some(TokenType::LET)
    } else if str_eq(word, "for") {
        Some(TokenType::FOR)
    } else if str_eq(word, "if") {
        Some(TokenType::IF)
    } else if str_eq(word, "else") {
        Some(TokenType::ELSE)
    } else if str_eq(word, "while") {
        Some(TokenType::WHILE)
    } else if str_eq(word, "return") {
        Some(TokenType::RETURN)
    } else if str_eq(word, "super") {
        Some(TokenType::SUPER)
    } else {
        None
    }
}

/// Appends a token carrying no literal value, whose lexeme is the source
/// text between `start` and `current`.
fn append_generic_token(token_type: TokenType, source: &str, lexer_data: &mut LexerData)
    requires
        old(lexer_data).wf(source@),
    ensures
        final(lexer_data).wf(source@),
        tokens_model(final(lexer_data).tokens@) == tokens_model(old(lexer_data).tokens@).push(
            plain_token(
                token_type,
                source@.subrange(old(lexer_data).start as int, old(lexer_data).current as int),
                old(lexer_data).line_number as nat,
            ),
        ),
        final(lexer_data).current == old(lexer_data).current,
        final(lexer_data).start == old(lexer_data).start,
        final(lexer_data).line_number == old(lexer_data).line_number,
        final(lexer_data).length == old(lexer_data).length,
{
    let subtext = String::from_str(source.substring_char(lexer_data.start, lexer_data.current));
    let new_token = Token {
        name: token_type,
        lexeme: subtext,
        value: DataType::NULL,
        line_number: lexer_data.line_number,
    };
    proof {
        lemma_tokens_model_push(lexer_data.tokens@, new_token);
    }
    lexer_data.tokens.push(new_token);
}

/// Appends a literal token: its lexeme is the source text between
/// `start` and `current`, and it carries `value`.
fn append_value_token(
    token_type: TokenType,
    value: DataType,
    source: &str,
    lexer_data: &mut LexerData,
)
    requires
        old(lexer_data).wf(source@),
    ensures
        final(lexer_data).wf(source@),
        tokens_model(final(lexer_data).tokens@) == tokens_model(old(lexer_data).tokens@).push(
            TokenModel {
                kind: token_type,
                lexeme: source@.subrange(
                    old(lexer_data).start as int,
                    old(lexer_data).current as int,
                ),
                value: value@,
                line: old(lexer_data).line_number as nat,
            },
        ),
        final(lexer_data).current == old(lexer_data).current,
        final(lexer_data).start == old(lexer_data).start,
        final(lexer_data).line_number == old(lexer_data).line_number,
        final(lexer_data).length == old(lexer_data).length,
{
    let subtext = String::from_str(source.substring_char(lexer_data.start, lexer_data.current));
    let new_token = Token {
        name: token_type,
        lexeme: subtext,
        value,
        line_number: lexer_data.line_number,
    };
    proof {
        lemma_tokens_model_push(lexer_data.tokens@, new_token);
    }
    lexer_data.tokens.push(new_token);
}

/// Scans the remainder of an identifier or keyword whose first character
/// has just been consumed (maximal munch: the lexeme extends over every
/// following letter, digit or underscore), then appends the keyword's
/// token where the spelling is reserved and an `IDENTIFIER` otherwise.
fn identifier(source: &str, lexer_data: &mut LexerData)
    requires
        old(lexer_data).wf(source@),
        old(lexer_data).current == old(lexer_data).start + 1,
    ensures
        final(lexer_data).wf(source@),
        final(lexer_data).current == ident_end(source@, old(lexer_data).current as nat),
        tokens_model(final(lexer_data).tokens@) == tokens_model(old(lexer_data).tokens@).push(
            plain_token(
                word_kind(
                    source@.subrange(
                        old(lexer_data).start as int,
                        ident_end(source@, old(lexer_data).current as nat) as int,
                    ),
                ),
                source@.subrange(
                    old(lexer_data).start as int,
                    ident_end(source@, old(lexer_data).current as nat) as int,
                ),
                old(lexer_data).line_number as nat,
            ),
        ),
        final(lexer_data).start == old(lexer_data).start,
        final(lexer_data).line_number == old(lexer_data).line_number,
        final(lexer_data).length == old(lexer_data).length,
{
    while !is_at_end(lexer_data) && is_alphanumeric(peek(source, lexer_data))
        invariant
            lexer_data.wf(source@),
            old(lexer_data).current <= lexer_data.current,
            ident_end(source@, old(lexer_data).current as nat) == ident_end(
                source@,
                lexer_data.current as nat,
            ),
            lexer_data.tokens == old(lexer_data).tokens,
            lexer_data.start == old(lexer_data).start,
            lexer_data.line_number == old(lexer_data).line_number,
            lexer_data.length == old(lexer_data).length,
        decreases lexer_data.length - lexer_data.current,
    {
        let c = advance(source, lexer_data);
        if c == '\n' {
            lexer_data.line_number = lexer_data.line_number + 1;
        }
    }
    let word = source.substring_char(lexer_data.start, lexer_data.current);
    match keyword_lookup(word) {
        Some(key_word) => append_generic_token(key_word, source, lexer_data),
        None => append_generic_token(TokenType::IDENTIFIER, source, lexer_data),
    }
}

/// Scans the remainder of a number literal whose first digit has just
/// been consumed: the maximal digit run, extended across one decimal
/// point only when at least one digit follows it (a trailing point is
/// left for the next dispatch). The appended token keeps the exact digit
/// spelling of the lexeme as its value.
fn number(source: &str, lexer_data: &mut LexerData)
    requires
        old(lexer_data).wf(source@),
        old(lexer_data).current == old(lexer_data).start + 1,
        is_digit_char(source@[old(lexer_data).start as int]),
    ensures
        final(lexer_data).wf(source@),
        final(lexer_data).current == number_end(source@, old(lexer_data).start as nat),
        tokens_model(final(lexer_data).tokens@) == tokens_model(old(lexer_data).tokens@).push(
            TokenModel {
                kind: TokenType::NUMBER,
                lexeme: source@.subrange(
                    old(lexer_data).start as int,
                    number_end(source@, old(lexer_data).start as nat) as int,
                ),
                value: ValueModel::Num(
                    source@.subrange(
                        old(lexer_data).start as int,
                        number_end(source@, old(lexer_data).start as nat) as int,
                    ),
                ),
                line: old(lexer_data).line_number as nat,
            },
        ),
        final(lexer_data).start == old(lexer_data).start,
        final(lexer_data).line_number == old(lexer_data).line_number,
        final(lexer_data).length == old(lexer_data).length,
{
    while !is_at_end(lexer_data) && is_number(peek(source, lexer_data))
        invariant
            lexer_data.wf(source@),
            old(lexer_data).current <= lexer_data.current,
            digits_end(source@, old(lexer_data).current as nat) == digits_end(
                source@,
                lexer_data.current as nat,
            ),
            lexer_data.tokens == old(lexer_data).tokens,
            lexer_data.start == old(lexer_data).start,
            lexer_data.line_number == old(lexer_data).line_number,
            lexer_data.length == old(lexer_data).length,
        decreases lexer_data.length - lexer_data.current,
    {
        advance(source, lexer_data);
    }
    proof {
        assert(digits_end(source@, old(lexer_data).start as nat) == digits_end(
            source@,
            old(lexer_data).current as nat,
        ));
        assert(lexer_data.current == digits_end(source@, old(lexer_data).start as nat));
    }
    if !is_at_end(lexer_data) && peek(source, lexer_data) == '.' && lexer_data.current + 1
        < lexer_data.length && is_number(peek_next(source, lexer_data)) {
        let ghost d = lexer_data.current as nat;
        advance(source, lexer_data);
        while !is_at_end(lexer_data) && is_number(peek(source, lexer_data))
            invariant
                lexer_data.wf(source@),
                d + 1 <= lexer_data.current,
                digits_end(source@, (d + 1) as nat) == digits_end(
                    source@,
                    lexer_data.current as nat,
                ),
                lexer_data.tokens == old(lexer_data).tokens,
                lexer_data.start == old(lexer_data).start,
                lexer_data.line_number == old(lexer_data).line_number,
                lexer_data.length == old(lexer_data).length,
            decreases lexer_data.length - lexer_data.current,
        {
            advance(source, lexer_data);
        }
        proof {
            assert(lexer_data.current == number_end(source@, old(lexer_data).start as nat));
        }
    }
    let text = String::from_str(source.substring_char(lexer_data.start, lexer_data.current));
    append_value_token(TokenType::NUMBER, DataType::NUMBER(text), source, lexer_data);
}

/// Scans the body of a string literal whose opening quote has just been
/// consumed, through the closing quote. The token's lexeme includes both
/// quotes; its value is the raw text between them (no escape processing).
/// Every newline inside the body advances the line counter. Where the
/// input ends before a closing quote, the scan fails with the message
/// reported for an unterminated string.
fn create_string(source: &str, lexer_data: &mut LexerData) -> (r: Result<(), String>)
    requires
        old(lexer_data).wf(source@),
        old(lexer_data).current == old(lexer_data).start + 1,
    ensures
        final(lexer_data).wf(source@),
        final(lexer_data).start == old(lexer_data).start,
        final(lexer_data).length == old(lexer_data).length,
        match r {
            Ok(()) => {
                let close = string_close(source@, old(lexer_data).current as nat);
                &&& close < source@.len()
                &&& final(lexer_data).current == close + 1
                &&& final(lexer_data).line_number == old(lexer_data).line_number + newline_count(
                    source@,
                    old(lexer_data).current as nat,
                    close,
                )
                &&& tokens_model(final(lexer_data).tokens@) == tokens_model(
                    old(lexer_data).tokens@,
                ).push(
                    TokenModel {
                        kind: TokenType::STRING,
                        lexeme: source@.subrange(old(lexer_data).start as int, close as int + 1),
                        value: ValueModel::Text(
                            source@.subrange(old(lexer_data).start as int + 1, close as int),
                        ),
                        line: final(lexer_data).line_number as nat,
                    },
                )
            },
            Err(m) => {
                &&& string_close(source@, old(lexer_data).current as nat) >= source@.len()
                &&& m@ == unterminated_message()
                &&& final(lexer_data).line_number == old(lexer_data).line_number + newline_count(
                    source@,
                    old(lexer_data).current as nat,
                    source@.len(),
                )
                &&& final(lexer_data).tokens == old(lexer_data).tokens
            },
        },
{
    while !is_at_end(lexer_data) && peek(source, lexer_data) != '"'
        invariant
            lexer_data.wf(source@),
            old(lexer_data).current <= lexer_data.current,
            string_close(source@, old(lexer_data).current as nat) == string_close(
                source@,
                lexer_data.current as nat,
            ),
            lexer_data.line_number == old(lexer_data).line_number + newline_count(
                source@,
                old(lexer_data).current as nat,
                lexer_data.current as nat,
            ),
            lexer_data.tokens == old(lexer_data).tokens,
            lexer_data.start == old(lexer_data).start,
            lexer_data.length == old(lexer_data).length,
        decreases lexer_data.length - lexer_data.current,
    {
        let c = advance(source, lexer_data);
        if c == '\n' {
            lexer_data.line_number = lexer_data.line_number + 1;
        }
    }

    if is_at_end(lexer_data) {
        return Err(String::from_str("String never terminates."));
    }

    advance(source, lexer_data);

    let text = String::from_str(
        source.substring_char(lexer_data.start + 1, lexer_data.current - 1),
    );
    append_value_token(TokenType::STRING, DataType::TEXT(text), source, lexer_data);

    Ok(())
}

/// One dispatch of the scanner: consumes the lexeme (or discarded
/// stretch) beginning at `start == current` and performs exactly the step
/// `spec_step` assigns to that position.
fn scan_token(source: &str, lexer_data: &mut LexerData) -> (r: Result<(), SyntaxError>)
    requires
        old(lexer_data).wf(source@),
        old(lexer_data).current < old(lexer_data).length,
        old(lexer_data).start == old(lexer_data).current,
    ensures
        final(lexer_data).wf(source@),
        final(lexer_data).length == old(lexer_data).length,
        match r {
            Ok(()) => match spec_step(
                source@,
                old(lexer_data).current as nat,
                old(lexer_data).line_number as nat,
            ) {
                StepModel::Token(t, j, l) => {
                    &&& tokens_model(final(lexer_data).tokens@) == tokens_model(
                        old(lexer_data).tokens@,
                    ).push(t)
                    &&& final(lexer_data).current == j
                    &&& final(lexer_data).line_number == l
                },
                StepModel::Skip(j, l) => {
                    &&& final(lexer_data).tokens == old(lexer_data).tokens
                    &&& final(lexer_data).current == j
                    &&& final(lexer_data).line_number == l
                },
                StepModel::Fail(_) => false,
            },
            Err(e) => {
                &&& spec_step(
                    source@,
                    old(lexer_data).current as nat,
                    old(lexer_data).line_number as nat,
                ) == StepModel::Fail(e@)
                &&& final(lexer_data).tokens == old(lexer_data).tokens
            },
        },
{
    let c = advance(source, lexer_data);
    match c {
        '(' => append_generic_token(TokenType::LBRACKET, source, lexer_data),
        ')' => append_generic_token(TokenType::RBRACKET, source, lexer_data),
        '{' => append_generic_token(TokenType::LBRACE, source, lexer_data),
        '}' => append_generic_token(TokenType::RBRACE, source, lexer_data),
        '.' => append_generic_token(TokenType::DOT, source, lexer_data),
        ',' => append_generic_token(TokenType::COMMA, source, lexer_data),
        '+' => append_generic_token(TokenType::PLUS, source, lexer_data),
        '-' => append_generic_token(TokenType::MINUS, source, lexer_data),
        '*' => append_generic_token(TokenType::STAR, source, lexer_data),
        '!' => {
            if char_match('=', source, lexer_data) {
                append_generic_token(TokenType::BANGEQUAL, source, lexer_data);
            } else {
                append_generic_token(TokenType::BANG, source, lexer_data);
            }
        },
        '=' => {
            if char_match('=', source, lexer_data) {
                append_generic_token(TokenType::EQUALEQUAL, source, lexer_data);
            } else {
                append_generic_token(TokenType::EQUAL, source, lexer_data);
            }
        },
        '>' => {
            if char_match('=', source, lexer_data) {
                append_generic_token(TokenType::GREATEREQUAL, source, lexer_data);
            } else {
                append_generic_token(TokenType::GREATER, source, lexer_data);
            }
        },
        '<' => {
            if char_match('=', source, lexer_data) {
                append_generic_token(TokenType::LESSEQUAL, source, lexer_data);
            } else {
                append_generic_token(TokenType::LESS, source, lexer_data);
            }
        },
        '/' => {
            if char_match('/', source, lexer_data) {
                let ghost comment_from = lexer_data.current as nat;
                while !is_at_end(lexer_data) && peek(source, lexer_data) != '\n'
                    invariant
                        lexer_data.wf(source@),
                        comment_from <= lexer_data.current,
                        comment_end(source@, comment_from) == comment_end(
                            source@,
                            lexer_data.current as nat,
                        ),
                        lexer_data.tokens == old(lexer_data).tokens,
                        lexer_data.start == old(lexer_data).start,
                        lexer_data.line_number == old(lexer_data).line_number,
                        lexer_data.length == old(lexer_data).length,
                    decreases lexer_data.length - lexer_data.current,
                {
                    advance(source, lexer_data);
                }
            } else {
                append_generic_token(TokenType::SLASH, source, lexer_data);
            }
        },
        ';' => append_generic_token(TokenType::SEMICOLON, source, lexer_data),
        ' ' | '\r' | '\t' => (),
        '\n' => {
            lexer_data.line_number = lexer_data.line_number + 1;
        },
        '"' => match create_string(source, lexer_data) {
            Ok(()) => {},
            Err(m) => {
                return Err(
                    SyntaxError { message: m, line_number: lexer_data.line_number },
                );
            },
        },
        _ => {
            if is_number(c) {
                number(source, lexer_data);
            } else if is_alpha(c) {
                identifier(source, lexer_data);
            } else {
                return Err(
                    SyntaxError {
                        message: String::from_str("Unexpected Character"),
                        line_number: lexer_data.line_number,
                    },
                );
            }
        },
    }
    Ok(())
}

/// Scans a complete source text into its token sequence, in source
/// order, always terminated by exactly one `EOF` sentinel — or fails
/// with the first lexical error. The outcome is exactly the one
/// `scan_spec::spec_scan` assigns to the text, viewed character-wise:
/// line numbers start at 0, and every newline consumed anywhere advances
/// the line counter.
pub fn scan_tokens(contents: &str) -> (r: Result<Vec<Token>, SyntaxError>)
    ensures
        match r {
            Ok(tokens) => spec_scan(contents@) == Ok::<Seq<TokenModel>, ErrorModel>(
                tokens_model(tokens@),
            ),
            Err(e) => spec_scan(contents@) == Err::<Seq<TokenModel>, ErrorModel>(
                e@,
            ),
        },
{
    let length = contents.unicode_len();
    let mut lexer_data = LexerData {
        tokens: Vec::new(),
        current: 0,
        start: 0,
        line_number: 0,
        length,
    };
    proof {
        lemma_tokens_model_empty();
        lemma_scanned_nil(spec_scan_from(contents@, 0, 0));
    }

    while !is_at_end(&lexer_data)
        invariant
            lexer_data.wf(contents@),
            spec_scan(contents@) == scanned(
                tokens_model(lexer_data.tokens@),
                spec_scan_from(
                    contents@,
                    lexer_data.current as nat,
                    lexer_data.line_number as nat,
                ),
            ),
        decreases lexer_data.length - lexer_data.current,
    {
        lexer_data.start = lexer_data.current;
        let ghost prev = lexer_data;
        match scan_token(contents, &mut lexer_data) {
            Ok(()) => {
                proof {
                    lemma_step_advances(contents@, prev.current as nat, prev.line_number as nat);
                    match spec_step(contents@, prev.current as nat, prev.line_number as nat) {
                        StepModel::Token(t, j, l) => {
                            lemma_scanned_push(
                                tokens_model(prev.tokens@),
                                t,
                                spec_scan_from(contents@, j, l),
                            );
                        },
                        StepModel::Skip(j, l) => {
                        },
                        StepModel::Fail(e) => {
                        },
                    }
                }
            },
            Err(e) => {
                return Err(e);
            },
        }
    }

    let ghost done = lexer_data.tokens@;
    let eof = Token {
        name: TokenType::EOF,
        lexeme: String::new(),
        value: DataType::NULL,
        line_number: lexer_data.line_number,
    };
    let ghost eof_snapshot = eof;
    lexer_data.tokens.push(eof);
    proof {
        let line = lexer_data.line_number as nat;
        assert(eof_snapshot@ == eof_token(line));
        lemma_tokens_model_push(done, eof_snapshot);
        assert(tokens_model(done) + seq![eof_token(line)] =~= tokens_model(done).push(
            eof_token(line),
        ));
    }
    Ok(lexer_data.tokens)
}

} // verus!
