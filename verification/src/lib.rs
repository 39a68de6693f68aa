//! An assembler and static linker for the SArch32 instruction set.
//!
//! The pipeline turns assembly text into a linked binary image:
//! tokens, preprocessed tokens, a syntax tree, an object model of
//! sections and labels, and finally the laid-out image.

use vstd::prelude::*;

pub mod laws;
pub mod lexer;
pub mod linker;
pub mod objgen;
pub mod parser;
pub mod preprocessor;
pub mod symbols;
pub mod text;

use lexer::{LexerToken, LexerError, spec_tokenize, lemma_lex_len};
use preprocessor::{IncludeMap, Preprocessor, PreprocessError, spec_preprocess, INCLUDE_DEPTH};

verus! {

/// Runs the front half of the pipeline: tokenizes the source, then
/// preprocesses the token stream against the given include table.  The
/// result is exactly the preprocessed form of the lexical token stream.
pub fn lex(code: &[char], included: IncludeMap) -> (r: Result<Vec<LexerToken>, PreprocessError>)
    requires
        code@.len() + 3 <= usize::MAX,
    ensures
        match spec_tokenize(code@) {
            Err((l, c)) => r is Err
                && (r->Err_0 matches PreprocessError::Lexer { line, column }
                && line == l && column == c),
            Ok(ts) => match spec_preprocess(ts, 0,
                Seq::<(Seq<char>, preprocessor::MacroView)>::empty(), included@,
                INCLUDE_DEPTH as nat) {
                Ok((out, _env)) => r is Ok && r->Ok_0.deep_view() == out,
                Err(e) => r is Err && r->Err_0.deep_view() == e,
            },
        },
{
    let tokens = match lexer::tokenize(code) {
        Ok(ts) => ts,
        Err(e) => {
            let (l, c) = match e {
                LexerError::Lexer { line, column } => (line, column),
                LexerError::EOF { line, column } => (line, column),
            };
            return Err(PreprocessError::Lexer { line: l, column: c });
        },
    };
    proof {
        lemma_lex_len(code@, 0, 1, 0, false);
    }
    let mut preprocessor = Preprocessor::new(included);
    preprocessor.preprocess(tokens)
}

} // verus!
