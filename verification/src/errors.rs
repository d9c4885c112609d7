//! Errors reported by the stages of the compiler.
use vstd::prelude::*;

verus! {

/// The stage that found an error, with its message where it has one.
#[derive(Debug, PartialEq)]
pub enum ErrorType {
    LexingError,
    ParsingError(String),
    TypeError(String),
    ControlFlowError(String),
}

/// An error with the line and column where it was found.
#[derive(Debug)]
pub struct CompileError {
    pub e_type: ErrorType,
    pub line: u32,
    pub col: u32,
}

impl CompileError {
    pub fn new(e_type: ErrorType, line: u32, col: u32) -> (r: Self)
        ensures
            r.e_type == e_type,
            r.line == line,
            r.col == col,
    {
        CompileError { e_type, line, col }
    }
}

} // verus!

verus! {

/// An error's stage and message, messages seen as sequences of characters.
pub enum ErrorTypeView {
    LexingError,
    ParsingError(Seq<char>),
    TypeError(Seq<char>),
    ControlFlowError(Seq<char>),
}

impl View for ErrorType {
    type V = ErrorTypeView;

    open spec fn view(&self) -> ErrorTypeView {
        match self {
            ErrorType::LexingError => ErrorTypeView::LexingError,
            ErrorType::ParsingError(s) => ErrorTypeView::ParsingError(s@),
            ErrorType::TypeError(s) => ErrorTypeView::TypeError(s@),
            ErrorType::ControlFlowError(s) => ErrorTypeView::ControlFlowError(s@),
        }
    }
}

/// An error seen with its message as a sequence of characters.
pub struct CompileErrorView {
    pub e_type: ErrorTypeView,
    pub line: u32,
    pub col: u32,
}

impl View for CompileError {
    type V = CompileErrorView;

    open spec fn view(&self) -> CompileErrorView {
        CompileErrorView { e_type: self.e_type@, line: self.line, col: self.col }
    }
}

pub open spec fn errors_view(s: Seq<CompileError>) -> Seq<CompileErrorView> {
    s.map_values(|e: CompileError| e@)
}

impl ErrorType {
    /// Whether two error types are the same stage with the same message.
    pub fn same_as(&self, other: &ErrorType) -> (r: bool)
        ensures
            r == (self@ == other@),
    {
        match (self, other) {
            (ErrorType::LexingError, ErrorType::LexingError) => true,
            (ErrorType::ParsingError(a), ErrorType::ParsingError(b)) => a.eq(b),
            (ErrorType::TypeError(a), ErrorType::TypeError(b)) => a.eq(b),
            (ErrorType::ControlFlowError(a), ErrorType::ControlFlowError(b)) => a.eq(b),
            _ => false,
        }
    }
}

} // verus!
