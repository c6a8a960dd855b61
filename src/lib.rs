//! A parser for GraphQL query documents: queries, mutations, fragment
//! definitions, selections, arguments, directives and literal values.
//!
//! `parse` turns a document into the typed tree of `ast`. Its contract states
//! the result as the grammar of `grammar`, a set of spec functions over the
//! characters of the input; every executable production is proved to agree
//! with it.
pub mod ast;
pub mod entry;
pub mod commas;
pub mod error;
pub mod grammar;
pub mod laws;
pub mod lexical;
pub mod magnitude;
pub mod parser;

pub use ast::{
    Directive, Document, Field, FragmentDefinition, FragmentInline, FragmentSpread, InputValue,
    Node, Operation, OperationType, Selection, SelectionSet, Type, VariableDefinition,
};
pub use entry::{parse, GraphQLParser, Rule};
pub use error::{ErrorKind, Expected, ParseError};
