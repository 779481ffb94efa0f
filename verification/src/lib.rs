//! A small compiler for the Rh language: a recursive-descent parser from
//! tokens to a syntax tree, and a code generator from that tree to AArch64
//! assembly text.
pub mod compiler;
