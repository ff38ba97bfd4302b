//! The meaning of a scan: a specification-level scanner that assigns to
//! every source text either its full token sequence, terminated by the
//! `EOF` sentinel, or the first lexical error with its line.
//!
//! Conventions fixed here: line numbers start at 0, and every newline
//! consumed anywhere — bare, inside a comment's trailing newline, or
//! inside a string literal body — advances the line counter by one.

use vstd::prelude::*;

use crate::shrub_error::ErrorModel;
use crate::token::{TokenModel, TokenType, ValueModel};

verus! {

/// A character that may begin or extend a number literal: an ASCII digit.
pub open spec fn is_digit_char(c: char) -> bool {
    ('0' as u32) <= (c as u32) && (c as u32) <= ('9' as u32)
}

/// A character that may begin an identifier or keyword: an ASCII letter
/// or an underscore.
pub open spec fn is_alpha_char(c: char) -> bool {
    (('a' as u32) <= (c as u32) && (c as u32) <= ('z' as u32)) || (('A' as u32) <= (c as u32)
        && (c as u32) <= ('Z' as u32)) || c == '_'
}

/// A character that may extend an identifier or keyword.
pub open spec fn is_alnum_char(c: char) -> bool {
    is_alpha_char(c) || is_digit_char(c)
}

/// The reserved-word table: the token category of `w` where `w` spells a
/// keyword exactly, and `None` where it does not.
pub open spec fn keyword_kind(w: Seq<char>) -> Option<TokenType> {
    if w == "and"@ {
        Some(TokenType::AND)
    } else if w == "or"@ {
        Some(TokenType::OR)
    } else if w == "true"@ {
        Some(TokenType::TRUE)
    } else if w == "false"@ {
        Some(TokenType::FALSE)
    } else if w == "null"@ {
        Some(TokenType::NULL)
    } else if w == "fn"@ {
        Some(TokenType::FN)
    } else if w == "class"@ {
        Some(TokenType::CLASS)
    } else if w == "output"@ {
        Some(TokenType::OUTPUT)
    } else if w == "let"@ {
        Some(TokenType::LET)
    } else if w == "for"@ {
        Some(TokenType::FOR)
    } else if w == "if"@ {
        Some(TokenType::IF)
    } else if w == "else"@ {
        Some(TokenType::ELSE)
    } else if w == "while"@ {
        Some(TokenType::WHILE)
    } else if w == "return"@ {
        Some(TokenType::RETURN)
    } else if w == "super"@ {
        Some(TokenType::SUPER)
    } else {
        None
    }
}

/// The category of an identifier-shaped word: its keyword's where the
/// spelling is reserved, `IDENTIFIER` otherwise.
pub open spec fn word_kind(w: Seq<char>) -> TokenType {
    match keyword_kind(w) {
        Some(k) => k,
        None => TokenType::IDENTIFIER,
    }
}

/// The first position at or after `i` that does not extend an identifier,
/// or the end of the source.
pub open spec fn ident_end(s: Seq<char>, i: nat) -> nat
    decreases s.len() - i,
{
    if i < s.len() && is_alnum_char(s[i as int]) {
        ident_end(s, (i + 1) as nat)
    } else {
        i
    }
}

/// The first position at or after `i` that holds no digit, or the end of
/// the source.
pub open spec fn digits_end(s: Seq<char>, i: nat) -> nat
    decreases s.len() - i,
{
    if i < s.len() && is_digit_char(s[i as int]) {
        digits_end(s, (i + 1) as nat)
    } else {
        i
    }
}

/// The first position at or after `i` holding a newline, or the end of
/// the source: where a line comment's discarded text ends. The newline
/// itself is not part of the comment.
pub open spec fn comment_end(s: Seq<char>, i: nat) -> nat
    decreases s.len() - i,
{
    if i < s.len() && s[i as int] != '\n' {
        comment_end(s, (i + 1) as nat)
    } else {
        i
    }
}

/// The first position at or after `i` holding a closing double quote, or
/// the end of the source when the string literal never terminates.
pub open spec fn string_close(s: Seq<char>, i: nat) -> nat
    decreases s.len() - i,
{
    if i < s.len() && s[i as int] != '"' {
        string_close(s, (i + 1) as nat)
    } else {
        i
    }
}

/// How many newline characters `s` holds in positions `[i, j)`.
pub open spec fn newline_count(s: Seq<char>, i: nat, j: nat) -> nat
    decreases j,
{
    if j <= i {
        0
    } else {
        newline_count(s, i, (j - 1) as nat) + if s[j - 1] == '\n' {
            1nat
        } else {
            0nat
        }
    }
}

/// The end of a number literal whose digits begin at `i`: the maximal
/// digit run, extended across one decimal point only when at least one
/// digit follows the point.
pub open spec fn number_end(s: Seq<char>, i: nat) -> nat {
    let d = digits_end(s, i);
    if d < s.len() && s[d as int] == '.' && d + 1 < s.len() && is_digit_char(s[d as int + 1]) {
        digits_end(s, (d + 1) as nat)
    } else {
        d
    }
}

/// A token that carries no literal value.
pub open spec fn plain_token(kind: TokenType, lexeme: Seq<char>, line: nat) -> TokenModel {
    TokenModel { kind, lexeme, value: ValueModel::Null, line }
}

/// The terminal sentinel appended after the last lexeme: `EOF` with an
/// empty lexeme, at the line the scan ended on.
pub open spec fn eof_token(line: nat) -> TokenModel {
    plain_token(TokenType::EOF, Seq::empty(), line)
}

/// The message reported for a character that begins no token.
pub open spec fn unexpected_message() -> Seq<char> {
    "Unexpected Character"@
}

/// The message reported for a string literal with no closing quote.
pub open spec fn unterminated_message() -> Seq<char> {
    "String never terminates."@
}

/// The effect of one dispatch of the scanner: a token together with the
/// next unread position and line, a consumed stretch that emits nothing,
/// or the first lexical error.
pub enum StepModel {
    Token(TokenModel, nat, nat),
    Skip(nat, nat),
    Fail(ErrorModel),
}

/// The step a token-emitting dispatch takes: the lexeme spans `[i, j)`
/// and carries no value.
pub open spec fn span_step(s: Seq<char>, kind: TokenType, i: nat, j: nat, line: nat) -> StepModel {
    StepModel::Token(plain_token(kind, s.subrange(i as int, j as int), line), j, line)
}

/// What the scanner's single dispatch on the character at position `i`
/// produces, with the scan currently at line `line`.
pub open spec fn spec_step(s: Seq<char>, i: nat, line: nat) -> StepModel
    recommends
        i < s.len(),
{
    let c = s[i as int];
    if c == '(' {
        span_step(s, TokenType::LBRACKET, i, (i + 1) as nat, line)
    } else if c == ')' {
        span_step(s, TokenType::RBRACKET, i, (i + 1) as nat, line)
    } else if c == '{' {
        span_step(s, TokenType::LBRACE, i, (i + 1) as nat, line)
    } else if c == '}' {
        span_step(s, TokenType::RBRACE, i, (i + 1) as nat, line)
    } else if c == '.' {
        span_step(s, TokenType::DOT, i, (i + 1) as nat, line)
    } else if c == ',' {
        span_step(s, TokenType::COMMA, i, (i + 1) as nat, line)
    } else if c == '+' {
        span_step(s, TokenType::PLUS, i, (i + 1) as nat, line)
    } else if c == '-' {
        span_step(s, TokenType::MINUS, i, (i + 1) as nat, line)
    } else if c == '*' {
        span_step(s, TokenType::STAR, i, (i + 1) as nat, line)
    } else if c == ';' {
        span_step(s, TokenType::SEMICOLON, i, (i + 1) as nat, line)
    } else if c == '!' {
        if i + 1 < s.len() && s[i as int + 1] == '=' {
            span_step(s, TokenType::BANGEQUAL, i, (i + 2) as nat, line)
        } else {
            span_step(s, TokenType::BANG, i, (i + 1) as nat, line)
        }
    } else if c == '=' {
        if i + 1 < s.len() && s[i as int + 1] == '=' {
            span_step(s, TokenType::EQUALEQUAL, i, (i + 2) as nat, line)
        } else {
            span_step(s, TokenType::EQUAL, i, (i + 1) as nat, line)
        }
    } else if c == '>' {
        if i + 1 < s.len() && s[i as int + 1] == '=' {
            span_step(s, TokenType::GREATEREQUAL, i, (i + 2) as nat, line)
        } else {
            span_step(s, TokenType::GREATER, i, (i + 1) as nat, line)
        }
    } else if c == '<' {
        if i + 1 < s.len() && s[i as int + 1] == '=' {
            span_step(s, TokenType::LESSEQUAL, i, (i + 2) as nat, line)
        } else {
            span_step(s, TokenType::LESS, i, (i + 1) as nat, line)
        }
    } else if c == '/' {
        if i + 1 < s.len() && s[i as int + 1] == '/' {
            StepModel::Skip(comment_end(s, (i + 2) as nat), line)
        } else {
            span_step(s, TokenType::SLASH, i, (i + 1) as nat, line)
        }
    } else if c == ' ' || c == '\r' || c == '\t' {
        StepModel::Skip((i + 1) as nat, line)
    } else if c == '\n' {
        StepModel::Skip((i + 1) as nat, (line + 1) as nat)
    } else if c == '"' {
        let close = string_close(s, (i + 1) as nat);
        if close < s.len() {
            let l2 = (line + newline_count(s, (i + 1) as nat, close)) as nat;
            StepModel::Token(
                TokenModel {
                    kind: TokenType::STRING,
                    lexeme: s.subrange(i as int, close as int + 1),
                    value: ValueModel::Text(s.subrange(i as int + 1, close as int)),
                    line: l2,
                },
                (close + 1) as nat,
                l2,
            )
        } else {
            StepModel::Fail(
                ErrorModel {
                    message: unterminated_message(),
                    line: (line + newline_count(s, (i + 1) as nat, s.len())) as nat,
                },
            )
        }
    } else if is_digit_char(c) {
        let end = number_end(s, i);
        StepModel::Token(
            TokenModel {
                kind: TokenType::NUMBER,
                lexeme: s.subrange(i as int, end as int),
                value: ValueModel::Num(s.subrange(i as int, end as int)),
                line,
            },
            end,
            line,
        )
    } else if is_alpha_char(c) {
        let end = ident_end(s, i);
        let w = s.subrange(i as int, end as int);
        StepModel::Token(plain_token(word_kind(w), w, line), end, line)
    } else {
        StepModel::Fail(ErrorModel { message: unexpected_message(), line })
    }
}

/// The tokens produced from position `i` on, with the scan at line
/// `line`, ending with the `EOF` sentinel — or the first error. The inner
/// bound checks only shield the recursion's termination measure:
/// `lemma_step_advances` shows the shielded branches are never taken.
pub open spec fn spec_scan_from(s: Seq<char>, i: nat, line: nat) -> Result<
    Seq<TokenModel>,
    ErrorModel,
>
    decreases s.len() - i,
{
    if i >= s.len() {
        Ok(seq![eof_token(line)])
    } else {
        match spec_step(s, i, line) {
            StepModel::Token(t, j, l) => if i < j <= s.len() {
                match spec_scan_from(s, j, l) {
                    Ok(rest) => Ok(seq![t] + rest),
                    Err(e) => Err(e),
                }
            } else {
                arbitrary()
            },
            StepModel::Skip(j, l) => if i < j <= s.len() {
                spec_scan_from(s, j, l)
            } else {
                arbitrary()
            },
            StepModel::Fail(e) => Err(e),
        }
    }
}

/// The meaning of scanning a whole source text: the scan starts at its
/// first character, on line 0.
pub open spec fn spec_scan(s: Seq<char>) -> Result<Seq<TokenModel>, ErrorModel> {
    spec_scan_from(s, 0, 0)
}

/// `spec_scan_from`'s answer, prefixed with the tokens already produced.
pub open spec fn scanned(prefix: Seq<TokenModel>, r: Result<Seq<TokenModel>, ErrorModel>) -> Result<
    Seq<TokenModel>,
    ErrorModel,
> {
    match r {
        Ok(rest) => Ok(prefix + rest),
        Err(e) => Err(e),
    }
}

pub proof fn lemma_ident_end_bounds(s: Seq<char>, i: nat)
    requires
        i <= s.len(),
    ensures
        i <= ident_end(s, i) <= s.len(),
    decreases s.len() - i,
{
    if i < s.len() && is_alnum_char(s[i as int]) {
        lemma_ident_end_bounds(s, (i + 1) as nat);
    }
}

pub proof fn lemma_digits_end_bounds(s: Seq<char>, i: nat)
    requires
        i <= s.len(),
    ensures
        i <= digits_end(s, i) <= s.len(),
    decreases s.len() - i,
{
    if i < s.len() && is_digit_char(s[i as int]) {
        lemma_digits_end_bounds(s, (i + 1) as nat);
    }
}

pub proof fn lemma_comment_end_bounds(s: Seq<char>, i: nat)
    requires
        i <= s.len(),
    ensures
        i <= comment_end(s, i) <= s.len(),
    decreases s.len() - i,
{
    if i < s.len() && s[i as int] != '\n' {
        lemma_comment_end_bounds(s, (i + 1) as nat);
    }
}

pub proof fn lemma_string_close_bounds(s: Seq<char>, i: nat)
    requires
        i <= s.len(),
    ensures
        i <= string_close(s, i) <= s.len(),
    decreases s.len() - i,
{
    if i < s.len() && s[i as int] != '"' {
        lemma_string_close_bounds(s, (i + 1) as nat);
    }
}

/// Every dispatch consumes at least one character and never runs past
/// the end of the source: the scan makes progress. A dispatch that emits
/// a token gives it exactly the consumed stretch of source text as its
/// lexeme.
pub proof fn lemma_step_advances(s: Seq<char>, i: nat, line: nat)
    requires
        i < s.len(),
    ensures
        match spec_step(s, i, line) {
            StepModel::Token(t, j, l) => i < j <= s.len() && t.lexeme == s.subrange(
                i as int,
                j as int,
            ),
            StepModel::Skip(j, l) => i < j <= s.len(),
            StepModel::Fail(e) => true,
        },
{
    let c = s[i as int];
    if c == '/' && i + 1 < s.len() && s[i as int + 1] == '/' {
        lemma_comment_end_bounds(s, (i + 2) as nat);
    }
    if c == '"' {
        lemma_string_close_bounds(s, (i + 1) as nat);
    }
    if is_digit_char(c) {
        lemma_digits_end_bounds(s, (i + 1) as nat);
        let d = digits_end(s, i);
        if d < s.len() && s[d as int] == '.' && d + 1 < s.len() && is_digit_char(
            s[d as int + 1],
        ) {
            lemma_digits_end_bounds(s, (d + 1) as nat);
        }
    }
    if is_alpha_char(c) {
        lemma_ident_end_bounds(s, (i + 1) as nat);
    }
}

pub proof fn lemma_scanned_nil(r: Result<Seq<TokenModel>, ErrorModel>)
    ensures
        scanned(Seq::empty(), r) == r,
{
    match r {
        Ok(rest) => {
            assert(Seq::<TokenModel>::empty() + rest =~= rest);
        },
        Err(_) => {
        },
    }
}

/// Law: scanning is a pure function of the source text alone — equal
/// sources scan to equal outcomes, so re-scanning the same immutable
/// source twice yields identical token sequences.
pub proof fn lemma_scan_deterministic(s1: Seq<char>, s2: Seq<char>)
    requires
        s1 == s2,
    ensures
        spec_scan(s1) == spec_scan(s2),
{
}

/// Law: the empty source scans to exactly one token, the `EOF` sentinel,
/// with an empty lexeme and no value, at line 0.
pub proof fn lemma_scan_empty()
    ensures
        spec_scan(Seq::empty()) == Ok::<Seq<TokenModel>, ErrorModel>(seq![eof_token(0)]),
{
}

/// A lexeme as every non-sentinel token carries it: a non-empty
/// contiguous substring of the source text.
pub open spec fn source_fragment(s: Seq<char>, lexeme: Seq<char>) -> bool {
    exists|i: int, j: int| 0 <= i < j <= s.len() && lexeme == #[trigger] s.subrange(i, j)
}

proof fn lemma_scan_from_eof(s: Seq<char>, i: nat, line: nat)
    requires
        i <= s.len(),
    ensures
        spec_scan_from(s, i, line) matches Ok(ts) ==> {
            &&& ts.len() >= 1
            &&& ts.last().kind == TokenType::EOF
            &&& ts.last().lexeme == Seq::<char>::empty()
            &&& forall|k: int| 0 <= k < ts.len() - 1 ==> ts[k].kind != TokenType::EOF
            &&& forall|k: int|
                0 <= k < ts.len() - 1 ==> ts[k].lexeme.len() > 0 && source_fragment(
                    s,
                    ts[k].lexeme,
                )
        },
    decreases s.len() - i,
{
    if i < s.len() {
        lemma_step_advances(s, i, line);
        match spec_step(s, i, line) {
            StepModel::Token(t, j, l) => {
                lemma_scan_from_eof(s, j, l);
                assert(t.kind != TokenType::EOF);
                assert(t.lexeme == s.subrange(i as int, j as int) && i < j <= s.len());
                assert(source_fragment(s, t.lexeme));
                match spec_scan_from(s, j, l) {
                    Ok(rest) => {
                        let ts = seq![t] + rest;
                        assert(ts.last() == rest.last());
                        assert forall|k: int| 0 <= k < ts.len() - 1 implies ts[k].kind
                            != TokenType::EOF && ts[k].lexeme.len() > 0 && source_fragment(
                            s,
                            ts[k].lexeme,
                        ) by {
                            if k == 0 {
                                assert(ts[0] == t);
                            } else {
                                assert(ts[k] == rest[k - 1]);
                            }
                        }
                    },
                    Err(_) => {
                    },
                }
            },
            StepModel::Skip(j, l) => {
                lemma_scan_from_eof(s, j, l);
            },
            StepModel::Fail(_) => {
            },
        }
    }
}

/// Law: every token of a successful scan other than the terminal
/// sentinel carries a non-empty lexeme that is a contiguous substring of
/// the source text.
pub proof fn lemma_scan_lexemes(s: Seq<char>)
    ensures
        spec_scan(s) matches Ok(ts) ==> forall|k: int|
            0 <= k < ts.len() - 1 ==> ts[k].lexeme.len() > 0 && source_fragment(s, ts[k].lexeme),
{
    lemma_scan_from_eof(s, 0, 0);
}

/// Law: every successful scan yields a non-empty token sequence whose
/// last token — and only that token — is the `EOF` sentinel, and the
/// sentinel's lexeme is empty.
pub proof fn lemma_scan_eof_sentinel(s: Seq<char>)
    ensures
        spec_scan(s) matches Ok(ts) ==> {
            &&& ts.len() >= 1
            &&& ts.last().kind == TokenType::EOF
            &&& ts.last().lexeme == Seq::<char>::empty()
            &&& forall|k: int| 0 <= k < ts.len() - 1 ==> ts[k].kind != TokenType::EOF
        },
{
    lemma_scan_from_eof(s, 0, 0);
}

proof fn lemma_ident_end_all_alnum(s: Seq<char>, i: nat)
    requires
        i <= s.len(),
        forall|k: int| i <= k < s.len() ==> is_alnum_char(s[k]),
    ensures
        ident_end(s, i) == s.len(),
    decreases s.len() - i,
{
    if i < s.len() {
        lemma_ident_end_all_alnum(s, (i + 1) as nat);
    }
}

/// Law (maximal munch): a source that is exactly one identifier-shaped
/// word — a letter or underscore followed only by letters, digits and
/// underscores — scans to a single token spanning the whole word,
/// followed by `EOF`. The word is never split, its category is the
/// keyword's where the spelling is reserved and `IDENTIFIER` otherwise,
/// and no value is attached.
pub proof fn lemma_scan_single_word(s: Seq<char>)
    requires
        s.len() > 0,
        is_alpha_char(s[0]),
        forall|k: int| 0 <= k < s.len() ==> is_alnum_char(s[k]),
    ensures
        spec_scan(s) == Ok::<Seq<TokenModel>, ErrorModel>(
            seq![plain_token(word_kind(s), s, 0), eof_token(0)],
        ),
{
    lemma_ident_end_all_alnum(s, 0);
    assert(s.subrange(0, s.len() as int) =~= s);
    assert(spec_scan_from(s, s.len(), 0) == Ok::<Seq<TokenModel>, ErrorModel>(
        seq![eof_token(0)],
    ));
    assert(seq![plain_token(word_kind(s), s, 0)] + seq![eof_token(0)] =~= seq![
        plain_token(word_kind(s), s, 0),
        eof_token(0),
    ]);
}

/// Law: every reserved spelling scans to its keyword's token — never to
/// an `IDENTIFIER` — covering the whole spelling, followed by `EOF`.
pub proof fn lemma_scan_keyword(s: Seq<char>)
    requires
        keyword_kind(s) is Some,
    ensures
        spec_scan(s) == Ok::<Seq<TokenModel>, ErrorModel>(
            seq![plain_token(word_kind(s), s, 0), eof_token(0)],
        ),
        word_kind(s) != TokenType::IDENTIFIER,
{
    if s == "and"@ {
        reveal_strlit("and");
    } else if s == "or"@ {
        reveal_strlit("or");
    } else if s == "true"@ {
        reveal_strlit("true");
    } else if s == "false"@ {
        reveal_strlit("false");
    } else if s == "null"@ {
        reveal_strlit("null");
    } else if s == "fn"@ {
        reveal_strlit("fn");
    } else if s == "class"@ {
        reveal_strlit("class");
    } else if s == "output"@ {
        reveal_strlit("output");
    } else if s == "let"@ {
        reveal_strlit("let");
    } else if s == "for"@ {
        reveal_strlit("for");
    } else if s == "if"@ {
        reveal_strlit("if");
    } else if s == "else"@ {
        reveal_strlit("else");
    } else if s == "while"@ {
        reveal_strlit("while");
    } else if s == "return"@ {
        reveal_strlit("return");
    } else {
        reveal_strlit("super");
    }
    assert(is_alpha_char(s[0]));
    assert forall|k: int| 0 <= k < s.len() implies is_alnum_char(s[k]) by {
        if k == 0 {
        } else if k == 1 {
        } else if k == 2 {
        } else if k == 3 {
        } else if k == 4 {
        } else {
        }
    }
    lemma_scan_single_word(s);
}

pub proof fn lemma_scanned_push(
    prefix: Seq<TokenModel>,
    t: TokenModel,
    r: Result<Seq<TokenModel>, ErrorModel>,
)
    ensures
        scanned(
            prefix,
            match r {
                Ok(rest) => Ok(seq![t] + rest),
                Err(e) => Err(e),
            },
        ) == scanned(prefix.push(t), r),
{
    match r {
        Ok(rest) => {
            assert(prefix + (seq![t] + rest) =~= prefix.push(t) + rest);
        },
        Err(_) => {
        },
    }
}

} // verus!
