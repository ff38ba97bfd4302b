//! The token data model: token categories, literal values, and the token
//! record itself, together with the mathematical view of each.

use vstd::prelude::*;

verus! {

/// The category of a token.
#[derive(Clone, Copy, Debug, PartialEq, Eq, Structural)]
pub enum TokenType {
    RBRACKET,
    LBRACKET,
    RBRACE,
    LBRACE,
    DOT,
    COMMA,
    PLUS,
    MINUS,
    SLASH,
    STAR,
    LET,
    AND,
    OR,
    BANG,
    EQUAL,
    BANGEQUAL,
    EQUALEQUAL,
    GREATER,
    LESS,
    GREATEREQUAL,
    LESSEQUAL,
    SEMICOLON,
    TRUE,
    FALSE,
    FOR,
    IF,
    ELSE,
    WHILE,
    RETURN,
    SUPER,
    NULL,
    STRING,
    NUMBER,
    IDENTIFIER,
    FN,
    CLASS,
    OUTPUT,
    EOF,
}

/// The value carried by a literal token. A numeric literal keeps its exact
/// digit spelling; turning that spelling into a machine number is left to
/// the embedding program, outside this crate.
#[derive(Clone, Debug, PartialEq)]
pub enum DataType {
    NUMBER(String),
    TEXT(String),
    NULL,
}

/// The mathematical value of a `DataType`.
pub enum ValueModel {
    Num(Seq<char>),
    Text(Seq<char>),
    Null,
}

impl View for DataType {
    type V = ValueModel;

    open spec fn view(&self) -> ValueModel {
        match self {
            DataType::NUMBER(s) => ValueModel::Num(s@),
            DataType::TEXT(s) => ValueModel::Text(s@),
            DataType::NULL => ValueModel::Null,
        }
    }
}

/// A classified, positioned fragment of source text. The lexeme is the
/// exact source substring the token was derived from; it is empty only for
/// the terminal `EOF` sentinel.
#[derive(Clone, Debug, PartialEq)]
pub struct Token {
    pub name: TokenType,
    pub lexeme: String,
    pub value: DataType,
    pub line_number: usize,
}

/// The mathematical value of a `Token`.
pub struct TokenModel {
    pub kind: TokenType,
    pub lexeme: Seq<char>,
    pub value: ValueModel,
    pub line: nat,
}

impl View for Token {
    type V = TokenModel;

    open spec fn view(&self) -> TokenModel {
        TokenModel {
            kind: self.name,
            lexeme: self.lexeme@,
            value: self.value@,
            line: self.line_number as nat,
        }
    }
}

/// The sequence of mathematical values of a produced token sequence.
pub open spec fn tokens_model(ts: Seq<Token>) -> Seq<TokenModel> {
    ts.map_values(|t: Token| t@)
}

pub proof fn lemma_tokens_model_push(ts: Seq<Token>, t: Token)
    ensures
        tokens_model(ts.push(t)) == tokens_model(ts).push(t@),
{
    assert(tokens_model(ts.push(t)) =~= tokens_model(ts).push(t@));
}

pub proof fn lemma_tokens_model_empty()
    ensures
        tokens_model(Seq::empty()) == Seq::<TokenModel>::empty(),
{
    assert(tokens_model(Seq::empty()) =~= Seq::<TokenModel>::empty());
}

} // verus!
