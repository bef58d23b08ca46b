//! The parser's error taxonomy.  Format errors are non-fatal to a run:
//! the caller logs them and goes on; only an unreadable file aborts.

use vstd::prelude::*;

verus! {

/// What went wrong while parsing one annotation or file.
#[derive(Debug, Clone, PartialEq)]
pub enum ParserError {
    IOError(String),
    AnnotationParseError(String),
    RouterParseError(String),
    ParameterParseError(String),
    ResponseParseError(String),
    SecurityParseError(String),
    GeneralApiInfoError(String),
    ServerParseError(String),
}

pub ghost enum ParserErrorView {
    IOError(Seq<char>),
    AnnotationParseError(Seq<char>),
    RouterParseError(Seq<char>),
    ParameterParseError(Seq<char>),
    ResponseParseError(Seq<char>),
    SecurityParseError(Seq<char>),
    GeneralApiInfoError(Seq<char>),
    ServerParseError(Seq<char>),
}

impl View for ParserError {
    type V = ParserErrorView;

    open spec fn view(&self) -> ParserErrorView {
        match self {
            ParserError::IOError(s) => ParserErrorView::IOError(s@),
            ParserError::AnnotationParseError(s) => ParserErrorView::AnnotationParseError(s@),
            ParserError::RouterParseError(s) => ParserErrorView::RouterParseError(s@),
            ParserError::ParameterParseError(s) => ParserErrorView::ParameterParseError(s@),
            ParserError::ResponseParseError(s) => ParserErrorView::ResponseParseError(s@),
            ParserError::SecurityParseError(s) => ParserErrorView::SecurityParseError(s@),
            ParserError::GeneralApiInfoError(s) => ParserErrorView::GeneralApiInfoError(s@),
            ParserError::ServerParseError(s) => ParserErrorView::ServerParseError(s@),
        }
    }
}

impl ParserError {
    /// The error's message text, for callers that report it.
    pub fn message(&self) -> (r: &String)
        ensures
            match self@ {
                ParserErrorView::IOError(s) => r@ == s,
                ParserErrorView::AnnotationParseError(s) => r@ == s,
                ParserErrorView::RouterParseError(s) => r@ == s,
                ParserErrorView::ParameterParseError(s) => r@ == s,
                ParserErrorView::ResponseParseError(s) => r@ == s,
                ParserErrorView::SecurityParseError(s) => r@ == s,
                ParserErrorView::GeneralApiInfoError(s) => r@ == s,
                ParserErrorView::ServerParseError(s) => r@ == s,
            },
    {
        match self {
            ParserError::IOError(s) => s,
            ParserError::AnnotationParseError(s) => s,
            ParserError::RouterParseError(s) => s,
            ParserError::ParameterParseError(s) => s,
            ParserError::ResponseParseError(s) => s,
            ParserError::SecurityParseError(s) => s,
            ParserError::GeneralApiInfoError(s) => s,
            ParserError::ServerParseError(s) => s,
        }
    }
}

} // verus!
