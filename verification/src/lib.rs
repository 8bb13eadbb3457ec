//! A symbolic verifier for annotated functions written in a subset of Perl.

pub mod annotations;
pub mod assoc;
pub mod encoding;
pub mod ast;
pub mod extractor;
pub mod facts;
pub mod ir;
pub mod lexer;
pub mod limits;
pub mod lowering;
pub mod names;
pub mod parser;
pub mod smt;
pub mod symexec;
pub mod text;

use vstd::prelude::*;

use crate::text::{decimal, push_str, push_string};

verus! {

/// Why a run of the checker failed.
#[derive(Debug)]
pub enum PerlcheckerError {
    ReadFile { path: String, message: String },
    VerificationFailed,
    Annotation(annotations::AnnotationError),
    TypeCheck(ast::TypeCheckError),
    Extraction(extractor::ExtractorError),
    Ir(ir::IrError),
    Parse(parser::ParseError),
    Smt(smt::SmtError),
    SymExec(symexec::SymExecError),
}

impl PerlcheckerError {
    /// The text that reports the error.
    pub open spec fn describe(&self) -> Seq<char> {
        match self {
            PerlcheckerError::ReadFile { path, message } => "failed to read "@ + path@ + ": "@ + message@,
            PerlcheckerError::VerificationFailed => "verification failed"@,
            PerlcheckerError::Annotation(e) => e.describe(),
            PerlcheckerError::TypeCheck(e) => e.describe(),
            PerlcheckerError::Extraction(e) => e.describe(),
            PerlcheckerError::Ir(e) => e.describe(),
            PerlcheckerError::Parse(e) => e.describe(),
            PerlcheckerError::Smt(e) => e.describe(),
            PerlcheckerError::SymExec(e) => e.describe(),
        }
    }

    /// The text that reports the error.
    pub fn message(&self) -> (r: String)
        ensures
            r@ == self.describe(),
    {
        match self {
            PerlcheckerError::ReadFile { path, message } => {
                let mut m = String::new();
                push_str(&mut m, "failed to read ");
                push_string(&mut m, path);
                push_str(&mut m, ": ");
                push_string(&mut m, message);
                m
            },
            PerlcheckerError::VerificationFailed => {
                let mut m = String::new();
                push_str(&mut m, "verification failed");
                m
            },
            PerlcheckerError::Annotation(e) => e.message(),
            PerlcheckerError::TypeCheck(e) => e.message(),
            PerlcheckerError::Extraction(e) => e.message(),
            PerlcheckerError::Ir(e) => e.message(),
            PerlcheckerError::Parse(e) => e.message(),
            PerlcheckerError::Smt(e) => e.message(),
            PerlcheckerError::SymExec(e) => e.message(),
        }
    }
}

/// The language subset accepted by the first version: its types, control
/// flow, expressions and the features it forbids.
#[derive(Debug, Clone, Copy, PartialEq, Eq)]
pub struct LanguageSubset {
    pub supported_types: &'static [&'static str],
    pub supported_control_flow: &'static [&'static str],
    pub supported_expressions: &'static [&'static str],
    pub forbidden_features: &'static [&'static str],
}

/// The first version's language subset.
pub fn v1_language_subset() -> (r: LanguageSubset)
    ensures
        r.supported_types@.len() == 2,
        r.supported_control_flow@.len() == 3,
        r.supported_expressions@.len() == 19,
        r.forbidden_features@.len() == 8,
{
    LanguageSubset {
        supported_types: &["Int", "Str"],
        supported_control_flow: &["if", "return", "assignment"],
        supported_expressions: &[
            "+",
            "-",
            "*",
            "/",
            ".",
            "<",
            "<=",
            ">",
            ">=",
            "==",
            "!=",
            "eq",
            "ne",
            "&&",
            "||",
            "!",
            "length",
            "substr",
            "index",
        ],
        forbidden_features: &[
            "loops",
            "arrays",
            "hashes",
            "function calls",
            "globals",
            "implicit variables ($_)",
            "regex",
            "implicit type coercions",
        ],
    }
}

} // verus!
