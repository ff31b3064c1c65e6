//! Extraction of declaration documentation from indentation-structured
//! script sources: a bracket- and quote-aware scanner, parsers for function
//! signatures, typed assignments and enum bodies, and an indentation-driven
//! block state machine that folds everything into a documentation tree,
//! which can be written out as a markdown report.

pub mod text;
pub mod error;
pub mod scanner;
pub mod model;
pub mod assignment;
pub mod function;
pub mod enums;
pub mod frame;
pub mod dispatch;
pub mod parser;
pub mod markdown;
pub mod report;
