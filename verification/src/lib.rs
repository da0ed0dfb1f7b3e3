//! Compiler core for HTML extractor scripts: source positions, lexing,
//! parsing, validation, formatting and the requirements a program places on
//! its host.

mod text;
mod source;

pub use source::{SourceLocation, SourceText, Span};
mod diagnostic;

pub use diagnostic::{CompileError, Diagnostic};
mod token;

pub use token::{InterpolatedTokenPart, Token, TokenKind};
mod lexer;

pub use lexer::lex;
mod ast;

pub use ast::{
    AssignmentOperator, BinaryOperator, Expression, ExpressionKind, FunctionDefinition,
    InterpolatedStringPart, ObjectField, Program, Statement, StatementKind, SwitchArm,
    SwitchPattern, TestBlock, TestInput, UnaryOperator, Visibility,
};
mod parser;
mod parse;
pub use parse::parse;
mod functions;
pub use functions::{BuiltinFunction, BuiltinFunctionKind, builtin_function, builtin_functions};
pub mod runtime;
pub mod value;
mod render;
pub use render::render;
mod resolve;
mod validation;
mod requirements;
mod program;
pub mod formatter;
pub mod cli;
pub mod cloudflare;
pub mod input;
pub mod scope;
pub mod engine;
pub mod operators;
pub mod evaluator;
pub use program::{CompiledProgram, ProgramView, compile};
pub use requirements::{FunctionIdentity, FunctionRequirement, InputConstraint, InputRequirement, Requirements};
