use vstd::prelude::*;

verus! {

/// Errors that compilation can report.
#[derive(Debug, Clone, PartialEq)]
pub enum CompilerError {
    TokenizerError { message: String },
    ParserError { message: String },
    TransformerError { message: String },
    CodegenError { message: String },
    UnexpectedToken { token: String, position: usize },
    UnexpectedEof,
    InvalidCharacter { character: char, position: usize },
}

/// The outcome of a compilation stage.
pub type Result<T> = std::result::Result<T, CompilerError>;

/// The outcome of a stage, stated over models.
pub type Outcome<T> = std::result::Result<T, Failure>;

/// Mathematical model of a compilation error.
pub enum Failure {
    Tokenizer(Seq<char>),
    Parser(Seq<char>),
    Transformer(Seq<char>),
    Codegen(Seq<char>),
    UnexpectedToken(Seq<char>, int),
    UnexpectedEof,
    InvalidCharacter(char, int),
}

impl View for CompilerError {
    type V = Failure;

    open spec fn view(&self) -> Failure {
        match self {
            CompilerError::TokenizerError { message } => Failure::Tokenizer(message@),
            CompilerError::ParserError { message } => Failure::Parser(message@),
            CompilerError::TransformerError { message } => Failure::Transformer(message@),
            CompilerError::CodegenError { message } => Failure::Codegen(message@),
            CompilerError::UnexpectedToken { token, position } => Failure::UnexpectedToken(
                token@,
                *position as int,
            ),
            CompilerError::UnexpectedEof => Failure::UnexpectedEof,
            CompilerError::InvalidCharacter { character, position } => Failure::InvalidCharacter(
                *character,
                *position as int,
            ),
        }
    }
}

} // verus!
