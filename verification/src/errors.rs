//! The error taxonomy of the parsing pipeline.

use vstd::prelude::*;

verus! {

/// Why a source unit, or one entity in it, could not be lifted.
#[derive(Debug, Clone, PartialEq, Eq)]
pub enum ParseError {
    /// The underlying parser produced no tree at all.
    Grammar,
    /// A tree was produced but contains error-marked nodes; lifting refuses
    /// the whole unit.
    Syntax,
    /// An entity declaration without a name.
    MissingEntityName,
    /// A mode keyword that is none of the four port directions.
    InvalidPortDirection(String),
    /// A port declaration without a type.
    MissingPortType,
    /// A generic declaration without a type.
    MissingGenericType,
    /// A vector-range bound that could not be resolved to an integer and had
    /// no applicable fallback.
    UnresolvableRange,
    /// No architecture body names the requested entity.
    NoArchitecture,
}

/// The mathematical view of a parse error.
pub enum ParseErrorV {
    Grammar,
    Syntax,
    MissingEntityName,
    InvalidPortDirection(Seq<char>),
    MissingPortType,
    MissingGenericType,
    UnresolvableRange,
    NoArchitecture,
}

impl View for ParseError {
    type V = ParseErrorV;

    open spec fn view(&self) -> ParseErrorV {
        match self {
            ParseError::Grammar => ParseErrorV::Grammar,
            ParseError::Syntax => ParseErrorV::Syntax,
            ParseError::MissingEntityName => ParseErrorV::MissingEntityName,
            ParseError::InvalidPortDirection(w) => ParseErrorV::InvalidPortDirection(w@),
            ParseError::MissingPortType => ParseErrorV::MissingPortType,
            ParseError::MissingGenericType => ParseErrorV::MissingGenericType,
            ParseError::UnresolvableRange => ParseErrorV::UnresolvableRange,
            ParseError::NoArchitecture => ParseErrorV::NoArchitecture,
        }
    }
}

impl ParseError {
    /// A short description, for callers that report errors as text.
    pub fn message(&self) -> (r: &str)
        ensures
            (*self is Grammar) ==> r@ == "the source could not be parsed"@,
            (*self is Syntax) ==> r@ == "the source contains syntax errors"@,
            (*self is MissingEntityName) ==> r@ == "entity missing name"@,
            (*self is InvalidPortDirection) ==> r@ == "invalid port direction"@,
            (*self is MissingPortType) ==> r@ == "port declaration missing type"@,
            (*self is MissingGenericType) ==> r@ == "generic declaration missing type"@,
            (*self is UnresolvableRange) ==> r@ == "could not resolve range bound"@,
            (*self is NoArchitecture) ==> r@ == "no architecture found for entity"@,
    {
        match self {
            ParseError::Grammar => "the source could not be parsed",
            ParseError::Syntax => "the source contains syntax errors",
            ParseError::MissingEntityName => "entity missing name",
            ParseError::InvalidPortDirection(_) => "invalid port direction",
            ParseError::MissingPortType => "port declaration missing type",
            ParseError::MissingGenericType => "generic declaration missing type",
            ParseError::UnresolvableRange => "could not resolve range bound",
            ParseError::NoArchitecture => "no architecture found for entity",
        }
    }
}

} // verus!
