//! A compile-and-execute pipeline for a minimal stack-based language whose
//! instruction alphabet is the five letters `S H R E K`.
//!
//! Source text flows strictly forward through the stages: tokenization,
//! syntax-tree construction, bytecode generation with label numbering, a
//! fixed-point constant-folding optimizer, and a stack-machine interpreter.

pub mod builtins;
pub mod byte_code;
pub mod optimizer;
pub mod semantics;
pub mod shrek_vm;
pub mod soundness;
pub mod shrek_parser;

use crate::byte_code::ByteCode;
use crate::optimizer::spec_optimize;
use crate::shrek_parser::{
    spec_build, spec_generate, spec_tokenize, token_v, node_v, NodeV, ParseResult, SyntaxError,
    SyntaxNode, SyntaxTree, Token, TokenV, Tokenizer,
};
use vstd::prelude::*;

verus! {

/// The whole compilation pipeline: tokenize, build the syntax tree, emit
/// bytecode, and constant-fold it.
pub open spec fn spec_parse_code(s: Seq<char>) -> Result<Seq<ByteCode>, (int, Seq<char>)> {
    match spec_tokenize(s, 0) {
        Err(i) => Err((i, "Invalid Token"@)),
        Ok(toks) => match spec_build(toks, 0) {
            Err(e) => Err(e),
            Ok(nodes) => match spec_generate(nodes, 0, Seq::empty()) {
                Err(e) => Err(e),
                Ok(emitted) => Ok(spec_optimize(emitted.0)),
            },
        },
    }
}

/// Compiles source text to optimized bytecode, or reports the first syntax
/// error with its source offset.
pub fn parse_code(input_code: &str) -> (r: ParseResult<Vec<ByteCode>>)
    requires
        input_code@.len() < 0x7fff_ffff,
    ensures
        match r {
            Ok(code) => spec_parse_code(input_code@) == Ok::<Seq<ByteCode>, (int, Seq<char>)>(
                code@,
            ),
            Err(e) => spec_parse_code(input_code@) == Err::<Seq<ByteCode>, (int, Seq<char>)>(
                (e.index as int, e.message@),
            ),
        },
{
    let tokenizer = Tokenizer::new();
    let tokens = match tokenizer.tokenize(input_code) {
        Ok(t) => t,
        Err(e) => {
            return Err(e);
        },
    };
    proof {
        crate::shrek_parser::lemma_tokenize_count(
            input_code@,
            0,
            tokens@.map_values(|t: Token| token_v(t)),
        );
    }
    let syntax_tree = match SyntaxTree::generate(&tokens) {
        Ok(t) => t,
        Err(e) => {
            return Err(e);
        },
    };
    proof {
        crate::shrek_parser::lemma_build_count(
            tokens@.map_values(|t: Token| token_v(t)),
            0,
            syntax_tree.tree@.map_values(|n: SyntaxNode| node_v(n)),
        );
    }
    let byte_code = match crate::shrek_parser::generate_byte_code(&syntax_tree) {
        Ok(c) => c,
        Err(e) => {
            return Err(e);
        },
    };
    proof {
        crate::shrek_parser::lemma_generate_count(
            syntax_tree.tree@.map_values(|n: SyntaxNode| node_v(n)),
            0,
            Seq::empty(),
        );
    }
    Ok(crate::optimizer::optimize(&byte_code))
}

} // verus!
