//! The Prepoly compiler front and middle end: lexing, the type model, HIR
//! lowering, whole-program analyses, back-end planning, and the editor features.

pub mod access;
pub mod acquire;
pub mod analysis;
pub mod anatomy;
pub mod annotate;
pub mod arith;
pub mod ast;
pub mod bindings;
pub mod changing;
pub mod circular;
pub mod closure;
pub mod coloring;
pub mod completion;
pub mod copies;
pub mod definition;
pub mod display;
pub mod document;
pub mod expand;
pub mod gathering;
pub mod guards;
pub mod hir;
pub mod hover;
pub mod importing;
pub mod items;
pub mod layout;
pub mod lexer;
pub mod literals;
pub mod lower;
pub mod meanings;
pub mod metadata;
pub mod modules;
pub mod monomorph;
pub mod mutation;
pub mod names;
pub mod nav;
pub mod objects;
pub mod offered;
pub mod offsets;
pub mod operators;
pub mod ownership;
pub mod plan;
pub mod pointing;
pub mod positions;
pub mod precheck;
pub mod reading;
pub mod render;
pub mod rewriting;
pub mod routines;
pub mod scan;
pub mod semantic_tokens;
pub mod shapes;
pub mod sharing;
pub mod showing;
pub mod signature;
pub mod span;
pub mod spawn;
pub mod spelling;
pub mod summaries;
pub mod table;
pub mod tasks;
pub mod text;
pub mod token;
pub mod traverse;
pub mod tree;
pub mod typed;
pub mod typedecl;
pub mod types;
pub mod unrolled;
pub mod writing;
